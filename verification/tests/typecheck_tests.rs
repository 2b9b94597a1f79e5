use splusnpp::parser::parse;
use splusnpp::typecheck::check;

fn verdict(source: &str) -> Result<(), String> {
    check(&parse(source).unwrap())
}

#[test]
fn accepts_a_well_typed_program() {
    assert!(verdict("fn add(a: Int, b: Int) -> Int { return a + b; } fn main() { let x = add(1, 2); print(x); }").is_ok());
}

#[test]
fn rejects_duplicate_functions() {
    assert_eq!(verdict("fn main() {} fn main() {}").unwrap_err(), "duplicate function `main`");
}

#[test]
fn requires_main() {
    assert_eq!(verdict("fn helper() {}").unwrap_err(), "program must define fn main()");
}

#[test]
fn reports_type_errors_in_expressions() {
    assert_eq!(
        verdict("fn main() { let x = 1 + \"a\"; }").unwrap_err(),
        "operator + expects two Int values or two String values, got Int and String"
    );
    assert_eq!(
        verdict("fn main() { let x = \"a\" - 1; }").unwrap_err(),
        "arithmetic operator expects Int, got String and Int"
    );
    assert_eq!(
        verdict("fn main() { let x = 1 == \"a\"; }").unwrap_err(),
        "comparison requires matching types, got Int and String"
    );
    assert_eq!(verdict("fn main() { let x = 1 < \"a\"; }").unwrap_err(), "ordering comparison expects Int values");
    assert!(verdict("fn main() { let s = \"a\" + \"b\"; let b = s == \"ab\"; }").is_ok());
}

#[test]
fn reports_undefined_names() {
    assert_eq!(verdict("fn main() { print(z); }").unwrap_err(), "undefined variable `z`");
    assert_eq!(verdict("fn main() { foo(); }").unwrap_err(), "unknown function `foo`");
    assert_eq!(verdict("fn main() { y = 1; }").unwrap_err(), "assignment to undefined variable `y`");
}

#[test]
fn checks_arguments() {
    assert_eq!(
        verdict("fn f(a: Int) -> Int { return a; } fn main() { f(); }").unwrap_err(),
        "function `f` expects 1 argument(s), got 0"
    );
    assert_eq!(
        verdict("fn f(a: Int) -> Int { return a; } fn main() { f(\"s\"); }").unwrap_err(),
        "function `f` argument 1 expects Int, got String"
    );
    assert_eq!(
        verdict("fn f(a: &mut Int) {} fn main() { f(\"s\"); }").unwrap_err(),
        "function `f` argument 1 expects &mut reference, got String"
    );
}

#[test]
fn checks_returns_conditions_and_assignments() {
    assert_eq!(
        verdict("fn main() -> Int { return \"s\"; }").unwrap_err(),
        "return type mismatch: expected Int, got String"
    );
    assert!(verdict("fn main() { return 5; }").is_ok());
    assert_eq!(verdict("fn main() { if 1 { } }").unwrap_err(), "if condition must be Bool");
    assert_eq!(verdict("fn main() { while 1 { } }").unwrap_err(), "while condition must be Bool");
    assert_eq!(verdict("fn main() { let x = 1; x = \"s\"; }").unwrap_err(), "cannot assign String to `x` of type Int");
}

#[test]
fn builtins_have_their_result_types() {
    assert!(verdict("fn main() { let n = str_len(\"abc\") + list_len(list(1, 2)); let b = str_contains(\"a\", \"b\") == map_has(map(), 1); }").is_ok());
    assert_eq!(
        verdict("fn main() { let t = spawn(\"main\"); let n = t + 1; }").unwrap_err(),
        "operator + expects two Int values or two String values, got Thread and Int"
    );
}

#[test]
fn requires_definite_assignment() {
    assert_eq!(verdict("fn main() { let x: Int; print(x); }").unwrap_err(), "use of uninitialized variable `x`");
    assert!(verdict("fn main() { let x: Int; if true { x = 1; } else { x = 2; } print(x); }").is_ok());
    assert_eq!(
        verdict("fn main() { let x: Int; if true { x = 1; } print(x); }").unwrap_err(),
        "use of uninitialized variable `x`"
    );
    assert_eq!(
        verdict("fn main() { let x: Int; while true { x = 1; } print(x); }").unwrap_err(),
        "use of uninitialized variable `x`"
    );
}

#[test]
fn tracks_moves() {
    assert_eq!(
        verdict("fn take(s: String) {} fn main() { let s = \"a\"; take(s); take(s); }").unwrap_err(),
        "use of moved value `s`; use `.clone()` before moving it again"
    );
    assert_eq!(
        verdict("fn main() { let s = \"a\"; let t = s; print(s); }").unwrap_err(),
        "use of moved value `s`; use `.clone()` before moving it again"
    );
    assert!(verdict("fn look(s: &String) {} fn main() { let s = \"a\"; look(s); look(s); }").is_ok());
    assert!(verdict("fn take(n: Int) {} fn main() { let n = 1; take(n); take(n); }").is_ok());
    assert!(verdict("fn main() { let s = \"a\"; print(s); print(s); }").is_ok());
}

#[test]
fn a_move_in_one_branch_counts_after_the_branch() {
    assert_eq!(
        verdict("fn take(s: String) {} fn main() { let s = \"a\"; if true { take(s); } print(s); }").unwrap_err(),
        "use of moved value `s`; use `.clone()` before moving it again"
    );
    assert_eq!(
        verdict("fn take(s: String) {} fn main() { let s = \"a\"; while false { take(s); } print(s); }").unwrap_err(),
        "use of moved value `s`; use `.clone()` before moving it again"
    );
    assert_eq!(
        verdict("fn main() { let s = \"a\"; while false { let t = s; } print(s); }").unwrap_err(),
        "use of moved value `s`; use `.clone()` before moving it again"
    );
    assert!(verdict("fn look(s: &String) {} fn main() { let s = \"a\"; while false { look(s); } print(s); }").is_ok());
}

#[test]
fn each_argument_moves_by_its_own_parameter() {
    assert_eq!(
        verdict("fn g(a: &String, b: String) { } fn main() { let x = \"a\"; let y = \"b\"; g(x, y); print(y); }").unwrap_err(),
        "use of moved value `y`; use `.clone()` before moving it again"
    );
    assert!(verdict("fn g(a: &String, b: String) { } fn main() { let x = \"a\"; let y = \"b\"; g(x, y); print(x); }").is_ok());
    assert_eq!(
        verdict("fn h(a: String, b: &String) { } fn main() { let x = \"a\"; let y = \"b\"; h(x, y); print(x); }").unwrap_err(),
        "use of moved value `x`; use `.clone()` before moving it again"
    );
    assert!(verdict("fn h(a: String, b: &String) { } fn main() { let x = \"a\"; let y = \"b\"; h(x, y); print(y); }").is_ok());
}
