use splusnpp::cli::{check_entry, check_source, diagnostic, package_summary, show};
use splusnpp::package::{Manifest, STARTER_ENTRY};
use splusnpp::Value;

#[test]
fn shows_values() {
    assert_eq!(show(&Value::Int(-5)), "-5");
    assert_eq!(show(&Value::Int(0)), "0");
    assert_eq!(show(&Value::Int(i64::MIN)), "-9223372036854775808");
    assert_eq!(show(&Value::Str("hi".into())), "hi");
    assert_eq!(show(&Value::Bool(true)), "true");
    assert_eq!(show(&Value::Bool(false)), "false");
    assert_eq!(show(&Value::Unit), "unit");
    assert_eq!(show(&Value::Thread(3)), "thread(3)");
    assert_eq!(show(&Value::Channel(12)), "channel(12)");
    assert_eq!(show(&Value::List(vec![Value::Int(1), Value::Unit])), "list(len=2)");
    assert_eq!(show(&Value::Dict(vec![])), "map(len=0)");
}

#[test]
fn diagnostic_points_at_the_line_naming_the_quoted_name() {
    let source = "fn main() {\n    print(x);\n}";
    assert_eq!(
        diagnostic(source, "undefined variable `x`"),
        "error: undefined variable `x`\n  --> source.snp:2:1\n   |\n  2 |     print(x);\n   | ^"
    );
}

#[test]
fn diagnostic_without_a_quoted_name_shows_the_first_nonempty_line() {
    assert_eq!(
        diagnostic("\n\nfn main() {}\nfn f() {}", "if condition must be Bool"),
        "error: if condition must be Bool\n  --> source.snp:1:1\n   |\n  1 | fn main() {}\n   | ^"
    );
    assert_eq!(
        diagnostic("fn main() {}", "unknown function `nowhere`"),
        "error: unknown function `nowhere`\n  --> source.snp:1:1\n   |\n  1 | fn main() {}\n   | ^"
    );
    assert_eq!(diagnostic("", "oops"), "error: oops\n  --> source.snp:1:1\n   |\n  1 | \n   | ^");
}

#[test]
fn diagnostic_numbers_wide_lines_without_padding() {
    let mut source = String::new();
    for _ in 0..99 {
        source.push_str("fn a() {}\n");
    }
    source.push_str("let target\n");
    assert_eq!(
        diagnostic(&source, "bad `target` here"),
        "error: bad `target` here\n  --> source.snp:100:1\n   |\n100 | let target\n   | ^"
    );
}

#[test]
fn diagnostic_quoted_name_runs_to_the_end_without_a_closing_backtick() {
    assert_eq!(
        diagnostic("a\nbc d\n", "see `c d"),
        "error: see `c d\n  --> source.snp:2:1\n   |\n  2 | bc d\n   | ^"
    );
}

#[test]
fn checks_sources_like_snp_check() {
    assert!(check_source(STARTER_ENTRY).is_ok());
    assert!(check_source("import std.io;\nimport std.concurrency;\nfn main() { print(1); }").is_ok());
    assert_eq!(
        check_source("import std.network;\nfn main() { undefined(); }").unwrap_err(),
        "unknown standard-library module `std.network`; available modules: std.io, std.string, std.collections, std.concurrency"
    );
    assert_eq!(check_source("fn main() { undefined(); }").unwrap_err(), "unknown function `undefined`");
    assert_eq!(check_source("fn main( {").unwrap_err(), "expected parameter");
}

#[test]
fn checks_a_package_entry_against_its_manifest() {
    let manifest = Manifest::parse("[package]\nname = \"app\"\nversion = \"1.0.0\"\n[dependencies]\nutil = \"../util\"\n").unwrap();
    assert!(check_entry(&manifest, "import util.strings;\nimport std.io;\nfn main() {}").is_ok());
    assert_eq!(
        check_entry(&manifest, "import net.http;\nfn main() {}").unwrap_err(),
        "unknown package namespace `net` in import `net.http`; add it to [dependencies]"
    );
    assert_eq!(check_entry(&manifest, "fn").unwrap_err(), "expected function name");
}

#[test]
fn summarises_a_checked_package() {
    let manifest = Manifest::parse("[package]\nname = \"app\"\nversion = \"1.0.0\"\n").unwrap();
    assert_eq!(package_summary(&manifest, 0), "ok: package `app` v1.0.0 with 0 local dependencies");
    assert_eq!(package_summary(&manifest, 1), "ok: package `app` v1.0.0 with 1 local dependency");
    assert_eq!(package_summary(&manifest, 2), "ok: package `app` v1.0.0 with 2 local dependencies");
}
