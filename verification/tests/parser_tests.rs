use splusnpp::parser::{parse, parse_program};
use splusnpp::{Expr, Stmt, Token, Type};

#[test]
fn parses_imports_and_functions() {
    let program = parse_program("import std.io;\nimport std.collections\nfn main() {}").unwrap();
    assert_eq!(program.imports, vec!["std.io".to_string(), "std.collections".to_string()]);
    assert_eq!(program.functions.len(), 1);
    assert_eq!(program.functions[0].name, "main");
    assert_eq!(program.functions[0].return_type, Type::Unit);
    assert!(program.functions[0].body.is_empty());
}

#[test]
fn parses_parameters_and_reference_types() {
    let functions = parse("fn f(a: Int, b: &String, c: &mut Bool) -> Thread { return a; }").unwrap();
    let f = &functions[0];
    assert_eq!(f.params, vec!["a".to_string(), "b".to_string(), "c".to_string()]);
    assert_eq!(
        f.param_types,
        vec![Type::Int, Type::Ref(Box::new(Type::Str)), Type::MutRef(Box::new(Type::Bool))]
    );
    assert_eq!(f.return_type, Type::Thread);
}

#[test]
fn parses_operator_precedence() {
    let functions = parse("fn main() { let x = 1 + 2 * 3 < 10; }").unwrap();
    match &functions[0].body[0] {
        Stmt::Let(name, Expr::Binary(lhs, op, rhs)) => {
            assert_eq!(name, "x");
            assert_eq!(*op, Token::Lt);
            assert!(matches!(**rhs, Expr::Int(10)));
            match &**lhs {
                Expr::Binary(one, Token::Plus, product) => {
                    assert!(matches!(**one, Expr::Int(1)));
                    assert!(matches!(**product, Expr::Binary(_, Token::Star, _)));
                }
                _ => panic!("expected a sum"),
            }
        }
        _ => panic!("expected a let"),
    }
}

#[test]
fn parses_statements() {
    let functions = parse(
        "fn main() { let n: Int; n = 1; if n == 1 { print(\"one\"); } else { print(n); } while false { } return n }",
    )
    .unwrap();
    let body = &functions[0].body;
    assert_eq!(body.len(), 5);
    assert!(matches!(&body[0], Stmt::Decl(name, Type::Int) if name == "n"));
    assert!(matches!(&body[1], Stmt::Assign(name, Expr::Int(1)) if name == "n"));
    assert!(matches!(&body[2], Stmt::If(_, yes, no) if yes.len() == 1 && no.len() == 1));
    assert!(matches!(&body[3], Stmt::While(Expr::Bool(false), inner) if inner.is_empty()));
    assert!(matches!(&body[4], Stmt::Return(Expr::Var(name)) if name == "n"));
}

#[test]
fn parses_calls_with_arguments() {
    let functions = parse("fn main() { spawn(\"worker\", ch, (1 + 2)); }").unwrap();
    match &functions[0].body[0] {
        Stmt::Expr(Expr::Call(name, args)) => {
            assert_eq!(name, "spawn");
            assert_eq!(args.len(), 3);
            assert!(matches!(&args[0], Expr::Str(s) if s == "worker"));
            assert!(matches!(&args[2], Expr::Binary(_, Token::Plus, _)));
        }
        _ => panic!("expected a call"),
    }
}

#[test]
fn reports_a_missing_parameter() {
    assert_eq!(parse("fn main( {}").unwrap_err(), "expected parameter");
}

#[test]
fn reports_an_unknown_type() {
    assert_eq!(parse("fn main() -> Foo {}").unwrap_err(), "unknown type `Foo`");
}

#[test]
fn reports_a_let_without_initializer_or_type() {
    assert_eq!(parse("fn main() { let x }").unwrap_err(), "let requires an initializer or explicit type");
}

#[test]
fn reports_tokens_with_their_debug_form() {
    assert_eq!(parse("fn main() { 1 + }").unwrap_err(), "unexpected token RBrace");
    assert_eq!(parse("fn main() { print(\"a\" }").unwrap_err(), "expected RParen, got RBrace");
    assert_eq!(parse_program("import 5").unwrap_err(), "expected module name after import, got Int(5)");
    assert_eq!(
        parse_program("import std.\"x\ny\"").unwrap_err(),
        "expected module name after `.`, got Str(\"x\\ny\")"
    );
    assert_eq!(parse("fn main() -> 7 {}").unwrap_err(), "expected type, got Int(7)");
}

#[test]
fn reports_a_missing_function_name() {
    assert_eq!(parse("fn 5() {}").unwrap_err(), "expected function name");
    assert_eq!(parse("let").unwrap_err(), "expected Fn, got Let");
}

#[test]
fn reports_lexer_errors() {
    assert_eq!(parse("fn main() { \"open }").unwrap_err(), "unterminated string");
}
