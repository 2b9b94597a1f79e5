use splusnpp::{lex, Token};

#[test]
fn lexes_a_function() {
    let tokens = lex("fn main() { return 1 + 2; }").unwrap();
    assert_eq!(
        tokens,
        vec![
            Token::Fn,
            Token::Ident("main".into()),
            Token::LParen,
            Token::RParen,
            Token::LBrace,
            Token::Return,
            Token::Int(1),
            Token::Plus,
            Token::Int(2),
            Token::Semi,
            Token::RBrace,
            Token::Eof,
        ]
    );
}

#[test]
fn lexes_keywords_operators_and_strings() {
    let tokens = lex("let mut if else while true false import x_1 & -> - == = != <= < >= > * / , : . \"hi there\"").unwrap();
    assert_eq!(
        tokens,
        vec![
            Token::Let,
            Token::Mut,
            Token::If,
            Token::Else,
            Token::While,
            Token::True,
            Token::False,
            Token::Import,
            Token::Ident("x_1".into()),
            Token::Amp,
            Token::Arrow,
            Token::Minus,
            Token::EqEq,
            Token::Eq,
            Token::BangEq,
            Token::Lte,
            Token::Lt,
            Token::Gte,
            Token::Gt,
            Token::Star,
            Token::Slash,
            Token::Comma,
            Token::Colon,
            Token::Dot,
            Token::Str("hi there".into()),
            Token::Eof,
        ]
    );
}

#[test]
fn skips_comments_and_unicode_whitespace() {
    let tokens = lex("# a comment\nlet\u{a0}x # another").unwrap();
    assert_eq!(tokens, vec![Token::Let, Token::Ident("x".into()), Token::Eof]);
}

#[test]
fn empty_source_is_just_the_end() {
    assert_eq!(lex("").unwrap(), vec![Token::Eof]);
    assert_eq!(lex("   \n\t").unwrap(), vec![Token::Eof]);
}

#[test]
fn every_lexed_stream_ends_with_one_eof() {
    for source in ["", "fn", "1 2 3", "# only a comment", "a.b.c;"] {
        let tokens = lex(source).unwrap();
        assert_eq!(tokens.last(), Some(&Token::Eof));
        assert_eq!(tokens.iter().filter(|t| **t == Token::Eof).count(), 1);
    }
}

#[test]
fn rejects_an_unterminated_string() {
    assert_eq!(lex("\"abc").unwrap_err(), "unterminated string");
}

#[test]
fn rejects_a_lone_bang() {
    assert_eq!(lex("a ! b").unwrap_err(), "unexpected !");
}

#[test]
fn rejects_an_unknown_character() {
    assert_eq!(lex("let x = 1 @ 2").unwrap_err(), "unexpected character: @");
}

#[test]
fn rejects_an_integer_that_does_not_fit() {
    assert_eq!(lex("99999999999999999999").unwrap_err(), "invalid integer");
    assert_eq!(lex("9223372036854775807").unwrap(), vec![Token::Int(i64::MAX), Token::Eof]);
}

#[test]
fn a_comment_line_leaves_the_rest_unchanged() {
    let rest = "let x = 1; \"s\" -> 22";
    for comment in ["", " note", " let y = \"q", "#"] {
        assert_eq!(lex(&format!("#{comment}\n{rest}")), lex(rest));
        assert_eq!(lex(&format!("#{comment}")).unwrap(), vec![Token::Eof]);
    }
}
