use splusnpp::version::{Constraint, Version};

fn v(text: &str) -> Version {
    Version::parse(text).unwrap()
}

#[test]
fn parses_versions() {
    assert_eq!(v("1.2.3"), Version { major: 1, minor: 2, patch: 3 });
    assert_eq!(v("01.0.10"), Version { major: 1, minor: 0, patch: 10 });
    assert_eq!(v("18446744073709551615.0.0").major, u64::MAX);
}

#[test]
fn rejects_malformed_versions() {
    for text in ["1.2", "1.2.3.4", "a.b.c", "", "1..3", "1.2.", " 1.2.3", "18446744073709551616.0.0", "+1.2.3"] {
        assert_eq!(Version::parse(text).unwrap_err(), format!("invalid semantic version `{text}`"));
    }
}

#[test]
fn versions_read_back_what_they_write() {
    for version in [v("0.0.0"), v("1.2.3"), Version { major: u64::MAX, minor: 7, patch: 0 }] {
        assert_eq!(Version::parse(&version.to_text()).unwrap(), version);
    }
    assert_eq!(v("1.20.3").to_text(), "1.20.3");
}

#[test]
fn orders_versions() {
    assert!(v("1.2.3").before(&v("1.2.4")));
    assert!(v("1.2.3").before(&v("1.10.0")));
    assert!(v("1.9.9").before(&v("2.0.0")));
    assert!(!v("1.2.3").before(&v("1.2.3")));
    assert!(!v("2.0.0").before(&v("1.9.9")));
}

#[test]
fn parses_constraints() {
    assert_eq!(Constraint::parse("*").unwrap(), Constraint::Any);
    assert_eq!(Constraint::parse("^1.0.0").unwrap(), Constraint::Caret(v("1.0.0")));
    assert_eq!(Constraint::parse("~1.2.0").unwrap(), Constraint::Tilde(v("1.2.0")));
    assert_eq!(Constraint::parse("=1.2.0").unwrap(), Constraint::Exact(v("1.2.0")));
    assert_eq!(Constraint::parse("1.2.0").unwrap(), Constraint::Exact(v("1.2.0")));
    assert_eq!(Constraint::parse("^").unwrap_err(), "invalid version constraint `^`");
    assert_eq!(Constraint::parse("**").unwrap_err(), "invalid version constraint `**`");
    assert_eq!(Constraint::parse(">1.0.0").unwrap_err(), "invalid version constraint `>1.0.0`");
}

#[test]
fn constraints_read_back_what_they_write() {
    for c in [Constraint::Any, Constraint::Exact(v("1.2.3")), Constraint::Caret(v("0.1.0")), Constraint::Tilde(v("3.4.5"))] {
        assert_eq!(Constraint::parse(&c.to_text()).unwrap(), c);
    }
    assert_eq!(Constraint::Caret(v("1.0.0")).to_text(), "^1.0.0");
}

#[test]
fn caret_keeps_the_leftmost_nonzero_number() {
    let c = Constraint::Caret(v("1.2.3"));
    assert!(c.matches(&v("1.2.3")));
    assert!(c.matches(&v("1.9.0")));
    assert!(!c.matches(&v("2.0.0")));
    assert!(!c.matches(&v("1.2.2")));
    let c = Constraint::Caret(v("0.2.3"));
    assert!(c.matches(&v("0.2.9")));
    assert!(!c.matches(&v("0.3.0")));
    let c = Constraint::Caret(v("0.0.3"));
    assert!(c.matches(&v("0.0.3")));
    assert!(!c.matches(&v("0.0.4")));
}

#[test]
fn tilde_exact_and_any() {
    let c = Constraint::Tilde(v("1.2.3"));
    assert!(c.matches(&v("1.2.9")));
    assert!(!c.matches(&v("1.3.0")));
    assert!(!c.matches(&v("1.2.0")));
    assert!(Constraint::Exact(v("1.2.3")).matches(&v("1.2.3")));
    assert!(!Constraint::Exact(v("1.2.3")).matches(&v("1.2.4")));
    assert!(Constraint::Any.matches(&v("0.0.0")));
}
