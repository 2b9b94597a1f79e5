use splusnpp::stdlib::{registry, resolve};

#[test]
fn resolves_core_modules() {
    assert!(resolve(&["std.io".into(), "std.concurrency".into()]).is_ok());
}

#[test]
fn rejects_unknown_modules() {
    let error = resolve(&["std.network".into()]).unwrap_err();
    assert!(error.contains("unknown standard-library module"));
}

#[test]
fn unknown_module_error_names_the_module_and_the_known_ones() {
    let error = resolve(&["std.io".into(), "std.fs".into(), "std.net".into()]).unwrap_err();
    assert_eq!(
        error,
        "unknown standard-library module `std.fs`; available modules: std.io, std.string, std.collections, std.concurrency"
    );
}

#[test]
fn resolves_no_imports() {
    assert!(resolve(&[]).is_ok());
}

#[test]
fn registry_lists_modules_by_name() {
    let modules = registry();
    let names: Vec<&str> = modules.iter().map(|m| m.name).collect();
    assert_eq!(names, vec!["std.collections", "std.concurrency", "std.io", "std.string"]);
    assert_eq!(modules[2].functions, &["print"]);
}

#[test]
fn collections_module_lists_lists_and_maps() {
    let modules = registry();
    assert_eq!(modules[0].name, "std.collections");
    assert_eq!(
        modules[0].functions,
        &["list", "list_push", "list_len", "list_get", "list_set", "list_concat", "map", "map_set", "map_get", "map_has"]
    );
}
