use splusnpp::package::{resolve_local, validate_imports, DependencyState, LocalDependency, Manifest};

#[test]
fn parses_manifest_and_dependencies() {
    let m = Manifest::parse("[package]\nname = \"demo\"\nversion = \"0.1.0\"\n\n[dependencies]\nutil = \"../util\"\n").unwrap();
    assert_eq!(m.name, "demo");
    assert_eq!(m.dependency("util").unwrap().source, "../util");
}

#[test]
fn rejects_missing_package_name() {
    assert!(Manifest::parse("[package]\nversion = \"0.1.0\"\n").is_err());
}

#[test]
fn validates_std_and_declared_package_imports() {
    let manifest = Manifest::parse("[package]\nname = \"app\"\nversion = \"0.1.0\"\n[dependencies]\nutil = \"../util\"\n").unwrap();
    assert!(validate_imports(&["std.io".into(), "util.math".into()], &manifest).is_ok());
    assert!(validate_imports(&["missing.math".into()], &manifest).is_err());
}

fn found(path: &str, state: DependencyState) -> LocalDependency {
    LocalDependency { path: path.into(), state }
}

#[test]
fn manifest_defaults_the_entry_and_reads_comments() {
    let m = Manifest::parse("# top\n[package] # the package\nname = \"demo\" # its name\nversion = 0.2.0\n").unwrap();
    assert_eq!(m.name, "demo");
    assert_eq!(m.version, "0.2.0");
    assert_eq!(m.entry, "src/main.snp");
    assert!(m.dependencies.is_empty());
    let m = Manifest::parse("[package]\nname=\"demo\"\nversion=\"1\"\nentry = \"bin/app.snp\"\r\n").unwrap();
    assert_eq!(m.entry, "bin/app.snp");
}

#[test]
fn manifest_keeps_dependencies_sorted_and_later_entries_win() {
    let m = Manifest::parse(
        "[package]\nname = \"app\"\nversion = \"0.1.0\"\n[dependencies]\nzeta = \"z\"\nalpha = \"a1\"\nmid = \"m\"\nalpha = \"a2\"\n",
    )
    .unwrap();
    let names: Vec<&str> = m.dependencies.iter().map(|d| d.name.as_str()).collect();
    assert_eq!(names, vec!["alpha", "mid", "zeta"]);
    assert_eq!(m.dependency("alpha").unwrap().source, "a2");
    assert!(m.dependency("beta").is_none());
}

#[test]
fn manifest_errors_name_the_line() {
    assert_eq!(Manifest::parse("[tools]\n").unwrap_err(), "unknown manifest section `tools` at line 1");
    assert_eq!(Manifest::parse("\n[package]\nname\n").unwrap_err(), "expected key = value at manifest line 3");
    assert_eq!(Manifest::parse("[package]\nauthor = \"me\"\n").unwrap_err(), "unknown package field `author` at line 2");
    assert_eq!(Manifest::parse("[dependencies]\nutil = \"\"\n").unwrap_err(), "invalid dependency at line 2");
    assert_eq!(Manifest::parse("[dependencies]\n = \"x\"\n").unwrap_err(), "invalid dependency at line 2");
    assert_eq!(Manifest::parse("name = \"x\"\n").unwrap_err(), "manifest field outside a section at line 1");
    assert_eq!(Manifest::parse("[package]\nversion = \"0.1.0\"\n").unwrap_err(), "manifest is missing [package] name");
    assert_eq!(Manifest::parse("[package]\nname = \"x\"\n").unwrap_err(), "manifest is missing [package] version");
    assert_eq!(Manifest::parse("").unwrap_err(), "manifest is missing [package] name");
}

#[test]
fn starter_manifest_reads_back() {
    let m = Manifest::parse(&splusnpp::package::starter_manifest("hello_world")).unwrap();
    assert_eq!(m.name, "hello_world");
    assert_eq!(m.version, "0.1.0");
    assert_eq!(m.entry, "src/main.snp");
    assert!(m.dependencies.is_empty());
}

#[test]
fn import_errors_name_the_namespace_or_the_module() {
    let manifest = Manifest::parse("[package]\nname = \"app\"\nversion = \"0.1.0\"\n[dependencies]\nutil = \"../util\"\n").unwrap();
    assert_eq!(
        validate_imports(&["util.math".into(), "net.http".into()], &manifest).unwrap_err(),
        "unknown package namespace `net` in import `net.http`; add it to [dependencies]"
    );
    assert_eq!(
        validate_imports(&["net.http".into(), "std.fs".into()], &manifest).unwrap_err(),
        "unknown standard-library module `std.fs`; available modules: std.io, std.string, std.collections, std.concurrency"
    );
    assert!(validate_imports(&["util".into()], &manifest).is_ok());
    assert!(validate_imports(&[], &manifest).is_ok());
}

#[test]
fn resolves_local_dependencies_in_name_order() {
    let manifest = Manifest::parse(
        "[package]\nname = \"app\"\nversion = \"0.1.0\"\n[dependencies]\nutil = \"util\"\ncore = \"/abs/core\"\n",
    )
    .unwrap();
    let paths = resolve_local(
        &manifest,
        &[
            found("/abs/core", DependencyState::Found("[package]\nname = \"core\"\nversion = \"1.0.0\"\n".into())),
            found("/base/util", DependencyState::Found("[package]\nname = \"util\"\nversion = \"0.1.0\"\n".into())),
        ],
    )
    .unwrap();
    assert_eq!(paths, vec!["/abs/core".to_string(), "/base/util".to_string()]);
}

#[test]
fn local_resolution_reports_the_first_problem() {
    let manifest = Manifest::parse("[package]\nname = \"app\"\nversion = \"0.1.0\"\n[dependencies]\nutil = \"util\"\n").unwrap();
    assert_eq!(
        resolve_local(&manifest, &[found("/b/util", DependencyState::Missing)]).unwrap_err(),
        "dependency `util` path does not exist: /b/util"
    );
    assert_eq!(
        resolve_local(&manifest, &[found("/b/util", DependencyState::NoManifest)]).unwrap_err(),
        "dependency `util` has no snp.toml: /b/util"
    );
    assert_eq!(
        resolve_local(&manifest, &[found("/b/util", DependencyState::Unreadable("cannot read /b/util/snp.toml: denied".into()))])
            .unwrap_err(),
        "cannot read /b/util/snp.toml: denied"
    );
    assert_eq!(
        resolve_local(&manifest, &[found("/b/util", DependencyState::Found("[package]\nversion = \"1\"\n".into()))]).unwrap_err(),
        "manifest is missing [package] name"
    );
    assert_eq!(
        resolve_local(&manifest, &[found("/b/util", DependencyState::Found("[package]\nname = \"tools\"\nversion = \"1\"\n".into()))])
            .unwrap_err(),
        "dependency `util` resolves to package `tools`"
    );
}

#[test]
fn later_lines_override_and_blank_lines_change_nothing() {
    let plain = "[package]\nname = \"a\"\nversion = \"1\"\n[dependencies]\nutil = \"one\"\n";
    let noisy = "[package]\n\n  # note\nname = \"a\"\n\t\nversion = \"1\"\n[dependencies]\n# deps\nutil = \"one\"\n";
    assert_eq!(Manifest::parse(plain).unwrap(), Manifest::parse(noisy).unwrap());
    let later = Manifest::parse("[package]\nname = \"a\"\nname = \"b\"\nversion = \"1\"\nversion = \"2\"\nentry = \"x.snp\"\nentry = \"y.snp\"\n[dependencies]\nutil = \"one\"\nutil = \"two\"\n").unwrap();
    assert_eq!(later.name, "b");
    assert_eq!(later.version, "2");
    assert_eq!(later.entry, "y.snp");
    assert_eq!(later.dependencies.len(), 1);
    assert_eq!(later.dependencies[0].name, "util");
    assert_eq!(later.dependencies[0].source, "two");
}

#[test]
fn a_later_section_overrides_earlier_values() {
    let base = "[package]\nname = \"app\"\nversion = \"1.0.0\"\n[dependencies]\nutil = \"one\"\n";
    let m = Manifest::parse(&format!("{base}[dependencies]\nutil = \"two\"\n")).unwrap();
    assert_eq!(m.dependency("util").unwrap().source, "two");
    assert_eq!(m.name, "app");
    let m = Manifest::parse(&format!("{base}[package]\nversion = \"2.0.0\"\n")).unwrap();
    assert_eq!(m.version, "2.0.0");
    assert_eq!(m.dependency("util").unwrap().source, "one");
    let with_comment = Manifest::parse("[package]\nname = \"app\"\n   # remark\nversion = \"1.0.0\"\n\n").unwrap();
    assert_eq!(with_comment, Manifest::parse("[package]\nname = \"app\"\nversion = \"1.0.0\"\n").unwrap());
}
