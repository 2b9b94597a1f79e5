//! S+N++ lexer and token definitions.

use vstd::prelude::*;
use crate::text::{
    char_is_space, chars_of, debug_quoted, debug_text, digits_value, find_char, int_string, int_text,
    is_alpha, is_digit, is_space, is_word_char, lemma_find_char_range, lemma_find_char_shift, push_char, same_text, string_of, string_of_range,
};

verus! {

#[derive(Debug, Clone, PartialEq)]
pub enum Token {
    Fn, Let, If, Else, While, Return, True, False, Mut, Import,
    Ident(String), Int(i64), Str(String), Amp,
    Plus, Minus, Star, Slash, Eq, EqEq, BangEq,
    Lt, Lte, Gt, Gte, LParen, RParen, LBrace, RBrace,
    Comma, Colon, Dot, Arrow, Semi, Eof,
}

/// A token as the specifications see it: text as character sequences.
pub enum Lexeme {
    Fn, Let, If, Else, While, Return, True, False, Mut, Import,
    Ident(Seq<char>), Int(i64), Str(Seq<char>), Amp,
    Plus, Minus, Star, Slash, Eq, EqEq, BangEq,
    Lt, Lte, Gt, Gte, LParen, RParen, LBrace, RBrace,
    Comma, Colon, Dot, Arrow, Semi, Eof,
}

impl View for Token {
    type V = Lexeme;

    open spec fn view(&self) -> Lexeme {
        match self {
            Token::Fn => Lexeme::Fn,
            Token::Let => Lexeme::Let,
            Token::If => Lexeme::If,
            Token::Else => Lexeme::Else,
            Token::While => Lexeme::While,
            Token::Return => Lexeme::Return,
            Token::True => Lexeme::True,
            Token::False => Lexeme::False,
            Token::Mut => Lexeme::Mut,
            Token::Import => Lexeme::Import,
            Token::Ident(s) => Lexeme::Ident(s@),
            Token::Int(n) => Lexeme::Int(*n),
            Token::Str(s) => Lexeme::Str(s@),
            Token::Amp => Lexeme::Amp,
            Token::Plus => Lexeme::Plus,
            Token::Minus => Lexeme::Minus,
            Token::Star => Lexeme::Star,
            Token::Slash => Lexeme::Slash,
            Token::Eq => Lexeme::Eq,
            Token::EqEq => Lexeme::EqEq,
            Token::BangEq => Lexeme::BangEq,
            Token::Lt => Lexeme::Lt,
            Token::Lte => Lexeme::Lte,
            Token::Gt => Lexeme::Gt,
            Token::Gte => Lexeme::Gte,
            Token::LParen => Lexeme::LParen,
            Token::RParen => Lexeme::RParen,
            Token::LBrace => Lexeme::LBrace,
            Token::RBrace => Lexeme::RBrace,
            Token::Comma => Lexeme::Comma,
            Token::Colon => Lexeme::Colon,
            Token::Dot => Lexeme::Dot,
            Token::Arrow => Lexeme::Arrow,
            Token::Semi => Lexeme::Semi,
            Token::Eof => Lexeme::Eof,
        }
    }
}

pub open spec fn tokens_view(ts: Seq<Token>) -> Seq<Lexeme> {
    ts.map_values(|t: Token| t@)
}

/// The `Debug` rendering of a token (`{:?}` on the derived impl).
pub open spec fn lexeme_debug(t: Lexeme) -> Seq<char> {
    match t {
        Lexeme::Fn => "Fn"@,
        Lexeme::Let => "Let"@,
        Lexeme::If => "If"@,
        Lexeme::Else => "Else"@,
        Lexeme::While => "While"@,
        Lexeme::Return => "Return"@,
        Lexeme::True => "True"@,
        Lexeme::False => "False"@,
        Lexeme::Mut => "Mut"@,
        Lexeme::Import => "Import"@,
        Lexeme::Ident(s) => "Ident("@ + debug_text(s) + ")"@,
        Lexeme::Int(n) => "Int("@ + int_text(n as int) + ")"@,
        Lexeme::Str(s) => "Str("@ + debug_text(s) + ")"@,
        Lexeme::Amp => "Amp"@,
        Lexeme::Plus => "Plus"@,
        Lexeme::Minus => "Minus"@,
        Lexeme::Star => "Star"@,
        Lexeme::Slash => "Slash"@,
        Lexeme::Eq => "Eq"@,
        Lexeme::EqEq => "EqEq"@,
        Lexeme::BangEq => "BangEq"@,
        Lexeme::Lt => "Lt"@,
        Lexeme::Lte => "Lte"@,
        Lexeme::Gt => "Gt"@,
        Lexeme::Gte => "Gte"@,
        Lexeme::LParen => "LParen"@,
        Lexeme::RParen => "RParen"@,
        Lexeme::LBrace => "LBrace"@,
        Lexeme::RBrace => "RBrace"@,
        Lexeme::Comma => "Comma"@,
        Lexeme::Colon => "Colon"@,
        Lexeme::Dot => "Dot"@,
        Lexeme::Arrow => "Arrow"@,
        Lexeme::Semi => "Semi"@,
        Lexeme::Eof => "Eof"@,
    }
}

/// The keyword a word spells, or an identifier.
pub open spec fn word_lexeme(w: Seq<char>) -> Lexeme {
    if w == seq!['f', 'n'] { Lexeme::Fn }
    else if w == seq!['l', 'e', 't'] { Lexeme::Let }
    else if w == seq!['i', 'f'] { Lexeme::If }
    else if w == seq!['e', 'l', 's', 'e'] { Lexeme::Else }
    else if w == seq!['w', 'h', 'i', 'l', 'e'] { Lexeme::While }
    else if w == seq!['r', 'e', 't', 'u', 'r', 'n'] { Lexeme::Return }
    else if w == seq!['t', 'r', 'u', 'e'] { Lexeme::True }
    else if w == seq!['f', 'a', 'l', 's', 'e'] { Lexeme::False }
    else if w == seq!['m', 'u', 't'] { Lexeme::Mut }
    else if w == seq!['i', 'm', 'p', 'o', 'r', 't'] { Lexeme::Import }
    else { Lexeme::Ident(w) }
}

/// The end of the run of word characters (`word`) or digits starting at `i`.
pub open spec fn run_end(cs: Seq<char>, i: int, word: bool) -> int
    decreases cs.len() - i,
{
    if 0 <= i < cs.len() && (if word { is_word_char(cs[i]) } else { is_digit(cs[i]) }) {
        run_end(cs, i + 1, word)
    } else {
        i
    }
}

pub open spec fn next_is(cs: Seq<char>, i: int, c: char) -> bool {
    i + 1 < cs.len() && cs[i + 1] == c
}

/// What a lexer step yields: nothing (layout), a token, or an error message;
/// and where the next step starts.
pub type StepResult = (Result<Option<Lexeme>, Seq<char>>, int);

/// Punctuation and operators at `i`.
pub open spec fn symbol_step(cs: Seq<char>, i: int) -> StepResult {
    let c = cs[i];
    if c == '&' { (Ok(Some(Lexeme::Amp)), i + 1) }
    else if c == '+' { (Ok(Some(Lexeme::Plus)), i + 1) }
    else if c == '*' { (Ok(Some(Lexeme::Star)), i + 1) }
    else if c == '/' { (Ok(Some(Lexeme::Slash)), i + 1) }
    else if c == '(' { (Ok(Some(Lexeme::LParen)), i + 1) }
    else if c == ')' { (Ok(Some(Lexeme::RParen)), i + 1) }
    else if c == '{' { (Ok(Some(Lexeme::LBrace)), i + 1) }
    else if c == '}' { (Ok(Some(Lexeme::RBrace)), i + 1) }
    else if c == ',' { (Ok(Some(Lexeme::Comma)), i + 1) }
    else if c == ':' { (Ok(Some(Lexeme::Colon)), i + 1) }
    else if c == '.' { (Ok(Some(Lexeme::Dot)), i + 1) }
    else if c == ';' { (Ok(Some(Lexeme::Semi)), i + 1) }
    else if c == '-' {
        if next_is(cs, i, '>') { (Ok(Some(Lexeme::Arrow)), i + 2) } else { (Ok(Some(Lexeme::Minus)), i + 1) }
    } else if c == '=' {
        if next_is(cs, i, '=') { (Ok(Some(Lexeme::EqEq)), i + 2) } else { (Ok(Some(Lexeme::Eq)), i + 1) }
    } else if c == '!' {
        if next_is(cs, i, '=') { (Ok(Some(Lexeme::BangEq)), i + 2) } else { (Err("unexpected !"@), i + 1) }
    } else if c == '<' {
        if next_is(cs, i, '=') { (Ok(Some(Lexeme::Lte)), i + 2) } else { (Ok(Some(Lexeme::Lt)), i + 1) }
    } else if c == '>' {
        if next_is(cs, i, '=') { (Ok(Some(Lexeme::Gte)), i + 2) } else { (Ok(Some(Lexeme::Gt)), i + 1) }
    } else {
        (Err("unexpected character: "@.push(c)), i + 1)
    }
}

/// One lexer step at position `i` of the source.
pub open spec fn lex_step(cs: Seq<char>, i: int) -> StepResult {
    let c = cs[i];
    if is_space(c) {
        (Ok(None), i + 1)
    } else if c == '#' {
        (Ok(None), find_char(cs, '\n', i))
    } else if is_digit(c) {
        let e = run_end(cs, i, false);
        let v = digits_value(cs.subrange(i, e));
        if v <= i64::MAX { (Ok(Some(Lexeme::Int(v as i64))), e) } else { (Err("invalid integer"@), e) }
    } else if is_alpha(c) || c == '_' {
        let e = run_end(cs, i, true);
        (Ok(Some(word_lexeme(cs.subrange(i, e)))), e)
    } else if c == '"' {
        let q = find_char(cs, '"', i + 1);
        if q >= cs.len() { (Err("unterminated string"@), q) }
        else { (Ok(Some(Lexeme::Str(cs.subrange(i + 1, q)))), q + 1) }
    } else {
        symbol_step(cs, i)
    }
}

pub proof fn lemma_run_end_bounds(cs: Seq<char>, i: int, word: bool)
    requires
        0 <= i <= cs.len(),
    ensures
        i <= run_end(cs, i, word) <= cs.len(),
    decreases cs.len() - i,
{
    if 0 <= i < cs.len() && (if word { is_word_char(cs[i]) } else { is_digit(cs[i]) }) {
        lemma_run_end_bounds(cs, i + 1, word);
    }
}

/// Every step moves forward, and a step that succeeds stays within the source.
pub proof fn lemma_step_advances(cs: Seq<char>, i: int)
    requires
        0 <= i < cs.len(),
    ensures
        lex_step(cs, i).1 > i,
        lex_step(cs, i).0 is Ok ==> lex_step(cs, i).1 <= cs.len(),
{
    let c = cs[i];
    if c == '#' {
        lemma_find_char_range(cs, '\n', i);
        lemma_find_char_range(cs, '\n', i + 1);
    } else if is_digit(c) {
        lemma_run_end_bounds(cs, i + 1, false);
    } else if is_alpha(c) || c == '_' {
        lemma_run_end_bounds(cs, i + 1, true);
    } else if c == '"' {
        lemma_find_char_range(cs, '"', i + 1);
    }
}

/// A step never yields the end-of-input token.
pub proof fn lemma_step_not_eof(cs: Seq<char>, i: int)
    requires
        0 <= i < cs.len(),
    ensures
        lex_step(cs, i).0 matches Ok(Some(t)) ==> !(t is Eof),
{
}

proof fn lemma_run_end_shift(p: Seq<char>, t: Seq<char>, j: int, word: bool)
    requires
        0 <= j <= t.len(),
    ensures
        run_end(p + t, p.len() + j, word) == p.len() + run_end(t, j, word),
    decreases t.len() - j,
{
    if j < t.len() {
        assert((p + t)[p.len() + j] == t[j]);
        lemma_run_end_shift(p, t, j + 1, word);
    }
}

/// A step reads only the text from its position on.
proof fn lemma_lex_step_shift(p: Seq<char>, t: Seq<char>, j: int)
    requires
        0 <= j < t.len(),
    ensures
        lex_step(p + t, p.len() + j) == (lex_step(t, j).0, p.len() + lex_step(t, j).1),
{
    let cs = p + t;
    let i = p.len() + j;
    assert(cs[i] == t[j]);
    assert(next_is(cs, i, '>') == next_is(t, j, '>'));
    assert(next_is(cs, i, '=') == next_is(t, j, '='));
    let c = t[j];
    if c == '#' {
        lemma_find_char_shift(p, t, '\n', j);
    } else if is_digit(c) {
        lemma_run_end_shift(p, t, j, false);
        lemma_run_end_bounds(t, j, false);
        assert(cs.subrange(i, run_end(cs, i, false)) =~= t.subrange(j, run_end(t, j, false)));
    } else if is_alpha(c) || c == '_' {
        lemma_run_end_shift(p, t, j, true);
        lemma_run_end_bounds(t, j, true);
        assert(cs.subrange(i, run_end(cs, i, true)) =~= t.subrange(j, run_end(t, j, true)));
    } else if c == '"' {
        lemma_find_char_shift(p, t, '"', j + 1);
        lemma_find_char_range(t, '"', j + 1);
        if find_char(t, '"', j + 1) < t.len() {
            assert(cs.subrange(i + 1, find_char(cs, '"', i + 1)) =~= t.subrange(j + 1, find_char(t, '"', j + 1)));
        }
    }
}

/// Lexing reads only the text from its position on.
pub proof fn lemma_lex_from_shift(p: Seq<char>, t: Seq<char>, j: int, acc: Seq<Lexeme>)
    requires
        0 <= j <= t.len(),
    ensures
        lex_from(p + t, p.len() + j, acc) == lex_from(t, j, acc),
    decreases t.len() - j,
{
    if j < t.len() {
        lemma_lex_step_shift(p, t, j);
        lemma_step_advances(t, j);
        let (r, k) = lex_step(t, j);
        if let Ok(x) = r {
            lemma_lex_from_shift(p, t, k, match x { Some(y) => acc.push(y), None => acc });
        }
    }
}

/// The tokens of `cs[i..]`, after the tokens `acc` already produced.
pub open spec fn lex_from(cs: Seq<char>, i: int, acc: Seq<Lexeme>) -> Result<Seq<Lexeme>, Seq<char>>
    decreases cs.len() - i,
{
    if i < 0 || i >= cs.len() {
        Ok(acc.push(Lexeme::Eof))
    } else {
        let (r, j) = lex_step(cs, i);
        match r {
            Err(m) => Err(m),
            Ok(t) => {
                proof {
                    lemma_step_advances(cs, i);
                }
                lex_from(cs, j, match t { Some(x) => acc.push(x), None => acc })
            },
        }
    }
}

/// The token sequence of a source text, or the lexer's error message.
pub open spec fn lexed(src: Seq<char>) -> Result<Seq<Lexeme>, Seq<char>> {
    lex_from(src, 0, seq![])
}

pub open spec fn step_view(r: Result<Option<Token>, String>) -> Result<Option<Lexeme>, Seq<char>> {
    match r {
        Ok(Some(t)) => Ok(Some(t@)),
        Ok(None) => Ok(None),
        Err(m) => Err(m@),
    }
}

impl Token {
    /// A copy of the token.
    pub fn duplicate(&self) -> (r: Token)
        ensures
            r == *self,
            r@ == self@,
    {
        match self {
            Token::Ident(s) => Token::Ident(s.clone()),
            Token::Str(s) => Token::Str(s.clone()),
            Token::Int(n) => Token::Int(*n),
            Token::Fn => Token::Fn,
            Token::Let => Token::Let,
            Token::If => Token::If,
            Token::Else => Token::Else,
            Token::While => Token::While,
            Token::Return => Token::Return,
            Token::True => Token::True,
            Token::False => Token::False,
            Token::Mut => Token::Mut,
            Token::Import => Token::Import,
            Token::Amp => Token::Amp,
            Token::Plus => Token::Plus,
            Token::Minus => Token::Minus,
            Token::Star => Token::Star,
            Token::Slash => Token::Slash,
            Token::Eq => Token::Eq,
            Token::EqEq => Token::EqEq,
            Token::BangEq => Token::BangEq,
            Token::Lt => Token::Lt,
            Token::Lte => Token::Lte,
            Token::Gt => Token::Gt,
            Token::Gte => Token::Gte,
            Token::LParen => Token::LParen,
            Token::RParen => Token::RParen,
            Token::LBrace => Token::LBrace,
            Token::RBrace => Token::RBrace,
            Token::Comma => Token::Comma,
            Token::Colon => Token::Colon,
            Token::Dot => Token::Dot,
            Token::Arrow => Token::Arrow,
            Token::Semi => Token::Semi,
            Token::Eof => Token::Eof,
        }
    }

    /// Whether two tokens are the same token.
    pub fn same(&self, other: &Token) -> (r: bool)
        ensures
            r == (self@ == other@),
    {
        match (self, other) {
            (Token::Ident(a), Token::Ident(b)) => same_text(a.as_str(), b.as_str()),
            (Token::Str(a), Token::Str(b)) => same_text(a.as_str(), b.as_str()),
            (Token::Int(a), Token::Int(b)) => *a == *b,
            (Token::Ident(_), _) | (Token::Str(_), _) | (Token::Int(_), _) => false,
            (_, Token::Ident(_)) | (_, Token::Str(_)) | (_, Token::Int(_)) => false,
            _ => {
                let same_kind = self.kind_index() == other.kind_index();
                proof {
                    if same_kind {
                        Token::lemma_same_kind(*self, *other);
                    }
                }
                same_kind
            },
        }
    }

    spec fn fieldless(&self) -> bool {
        !(self is Ident || self is Str || self is Int)
    }

    /// The position of a fieldless token's variant in the declaration.
    fn kind_index(&self) -> (r: u8)
        ensures
            self.fieldless() ==> (r as int == self.fieldless_index()),
    {
        match self {
            Token::Fn => 0,
            Token::Let => 1,
            Token::If => 2,
            Token::Else => 3,
            Token::While => 4,
            Token::Return => 5,
            Token::True => 6,
            Token::False => 7,
            Token::Mut => 8,
            Token::Import => 9,
            Token::Amp => 10,
            Token::Plus => 11,
            Token::Minus => 12,
            Token::Star => 13,
            Token::Slash => 14,
            Token::Eq => 15,
            Token::EqEq => 16,
            Token::BangEq => 17,
            Token::Lt => 18,
            Token::Lte => 19,
            Token::Gt => 20,
            Token::Gte => 21,
            Token::LParen => 22,
            Token::RParen => 23,
            Token::LBrace => 24,
            Token::RBrace => 25,
            Token::Comma => 26,
            Token::Colon => 27,
            Token::Dot => 28,
            Token::Arrow => 29,
            Token::Semi => 30,
            Token::Eof => 31,
            _ => 32,
        }
    }

    spec fn fieldless_index(&self) -> int {
        match self {
            Token::Fn => 0,
            Token::Let => 1,
            Token::If => 2,
            Token::Else => 3,
            Token::While => 4,
            Token::Return => 5,
            Token::True => 6,
            Token::False => 7,
            Token::Mut => 8,
            Token::Import => 9,
            Token::Amp => 10,
            Token::Plus => 11,
            Token::Minus => 12,
            Token::Star => 13,
            Token::Slash => 14,
            Token::Eq => 15,
            Token::EqEq => 16,
            Token::BangEq => 17,
            Token::Lt => 18,
            Token::Lte => 19,
            Token::Gt => 20,
            Token::Gte => 21,
            Token::LParen => 22,
            Token::RParen => 23,
            Token::LBrace => 24,
            Token::RBrace => 25,
            Token::Comma => 26,
            Token::Colon => 27,
            Token::Dot => 28,
            Token::Arrow => 29,
            Token::Semi => 30,
            Token::Eof => 31,
            _ => 32,
        }
    }

    /// Fieldless tokens of the same variant are the same token.
    proof fn lemma_same_kind(a: Token, b: Token)
        requires
            a.fieldless(),
            b.fieldless(),
            a.fieldless_index() == b.fieldless_index(),
        ensures
            a@ == b@,
    {
    }

    /// The `Debug` rendering of the token, as the parser's messages show it.
    pub fn debug_string(&self) -> (r: String)
        ensures
            r@ == lexeme_debug(self@),
    {
        match self {
            Token::Ident(s) => {
                let mut r = String::from_str("Ident(");
                let q = debug_quoted(s.as_str());
                r.append(q.as_str());
                r.append(")");
                r
            },
            Token::Str(s) => {
                let mut r = String::from_str("Str(");
                let q = debug_quoted(s.as_str());
                r.append(q.as_str());
                r.append(")");
                r
            },
            Token::Int(n) => {
                let mut r = String::from_str("Int(");
                let q = int_string(*n);
                r.append(q.as_str());
                r.append(")");
                r
            },
            Token::Fn => String::from_str("Fn"),
            Token::Let => String::from_str("Let"),
            Token::If => String::from_str("If"),
            Token::Else => String::from_str("Else"),
            Token::While => String::from_str("While"),
            Token::Return => String::from_str("Return"),
            Token::True => String::from_str("True"),
            Token::False => String::from_str("False"),
            Token::Mut => String::from_str("Mut"),
            Token::Import => String::from_str("Import"),
            Token::Amp => String::from_str("Amp"),
            Token::Plus => String::from_str("Plus"),
            Token::Minus => String::from_str("Minus"),
            Token::Star => String::from_str("Star"),
            Token::Slash => String::from_str("Slash"),
            Token::Eq => String::from_str("Eq"),
            Token::EqEq => String::from_str("EqEq"),
            Token::BangEq => String::from_str("BangEq"),
            Token::Lt => String::from_str("Lt"),
            Token::Lte => String::from_str("Lte"),
            Token::Gt => String::from_str("Gt"),
            Token::Gte => String::from_str("Gte"),
            Token::LParen => String::from_str("LParen"),
            Token::RParen => String::from_str("RParen"),
            Token::LBrace => String::from_str("LBrace"),
            Token::RBrace => String::from_str("RBrace"),
            Token::Comma => String::from_str("Comma"),
            Token::Colon => String::from_str("Colon"),
            Token::Dot => String::from_str("Dot"),
            Token::Arrow => String::from_str("Arrow"),
            Token::Semi => String::from_str("Semi"),
            Token::Eof => String::from_str("Eof"),
        }
    }
}

fn is_digit_char(c: char) -> (r: bool)
    ensures
        r == is_digit(c),
{
    '0' <= c && c <= '9'
}

fn is_word(c: char) -> (r: bool)
    ensures
        r == is_word_char(c),
{
    ('a' <= c && c <= 'z') || ('A' <= c && c <= 'Z') || ('0' <= c && c <= '9') || c == '_'
}

fn word_token(w: &Vec<char>) -> (t: Token)
    ensures
        t@ == word_lexeme(w@),
{
    let n = w.len();
    if n == 2 && w[0] == 'f' && w[1] == 'n' {
        assert(w@ =~= seq!['f', 'n']);
        return Token::Fn;
    }
    if n == 3 && w[0] == 'l' && w[1] == 'e' && w[2] == 't' {
        assert(w@ =~= seq!['l', 'e', 't']);
        return Token::Let;
    }
    if n == 2 && w[0] == 'i' && w[1] == 'f' {
        assert(w@ =~= seq!['i', 'f']);
        return Token::If;
    }
    if n == 4 && w[0] == 'e' && w[1] == 'l' && w[2] == 's' && w[3] == 'e' {
        assert(w@ =~= seq!['e', 'l', 's', 'e']);
        return Token::Else;
    }
    if n == 5 && w[0] == 'w' && w[1] == 'h' && w[2] == 'i' && w[3] == 'l' && w[4] == 'e' {
        assert(w@ =~= seq!['w', 'h', 'i', 'l', 'e']);
        return Token::While;
    }
    if n == 6 && w[0] == 'r' && w[1] == 'e' && w[2] == 't' && w[3] == 'u' && w[4] == 'r' && w[5] == 'n' {
        assert(w@ =~= seq!['r', 'e', 't', 'u', 'r', 'n']);
        return Token::Return;
    }
    if n == 4 && w[0] == 't' && w[1] == 'r' && w[2] == 'u' && w[3] == 'e' {
        assert(w@ =~= seq!['t', 'r', 'u', 'e']);
        return Token::True;
    }
    if n == 5 && w[0] == 'f' && w[1] == 'a' && w[2] == 'l' && w[3] == 's' && w[4] == 'e' {
        assert(w@ =~= seq!['f', 'a', 'l', 's', 'e']);
        return Token::False;
    }
    if n == 3 && w[0] == 'm' && w[1] == 'u' && w[2] == 't' {
        assert(w@ =~= seq!['m', 'u', 't']);
        return Token::Mut;
    }
    if n == 6 && w[0] == 'i' && w[1] == 'm' && w[2] == 'p' && w[3] == 'o' && w[4] == 'r' && w[5] == 't' {
        assert(w@ =~= seq!['i', 'm', 'p', 'o', 'r', 't']);
        return Token::Import;
    }
    Token::Ident(string_of(w.as_slice()))
}

/// Reads one run of decimal digits starting at `i`.
fn scan_number(cs: &Vec<char>, i: usize) -> (r: (Result<Option<Token>, String>, usize))
    requires
        i < cs.len(),
        is_digit(cs@[i as int]),
    ensures
        step_view(r.0) == lex_step(cs@, i as int).0,
        r.1 == lex_step(cs@, i as int).1,
{
    let mut k = i;
    let mut value: i64 = 0;
    let mut overflow = false;
    while k < cs.len() && is_digit_char(cs[k])
        invariant
            i <= k <= cs.len(),
            run_end(cs@, k as int, false) == run_end(cs@, i as int, false),
            !overflow ==> value as int == digits_value(cs@.subrange(i as int, k as int)),
            overflow ==> digits_value(cs@.subrange(i as int, k as int)) > i64::MAX,
        decreases cs.len() - k,
    {
        let d = (cs[k] as u32 - '0' as u32) as i64;
        let ghost prev = cs@.subrange(i as int, k as int);
        assert(cs@.subrange(i as int, k + 1).drop_last() =~= prev);
        if !overflow {
            match value.checked_mul(10) {
                Some(m) => match m.checked_add(d) {
                    Some(v) => { value = v; },
                    None => { overflow = true; },
                },
                None => { overflow = true; },
            }
        }
        k += 1;
    }
    let ghost e = run_end(cs@, i as int, false);
    assert(k as int == e);
    if overflow {
        (Err(String::from_str("invalid integer")), k)
    } else {
        (Ok(Some(Token::Int(value))), k)
    }
}

/// Reads one word starting at `i`.
fn scan_word(cs: &Vec<char>, i: usize) -> (r: (Result<Option<Token>, String>, usize))
    requires
        i < cs.len(),
        is_alpha(cs@[i as int]) || cs@[i as int] == '_',
    ensures
        step_view(r.0) == lex_step(cs@, i as int).0,
        r.1 == lex_step(cs@, i as int).1,
{
    let mut k = i;
    while k < cs.len() && is_word(cs[k])
        invariant
            i <= k <= cs.len(),
            run_end(cs@, k as int, true) == run_end(cs@, i as int, true),
        decreases cs.len() - k,
    {
        k += 1;
    }
    let mut w: Vec<char> = Vec::new();
    let mut j = i;
    while j < k
        invariant
            i <= j <= k <= cs.len(),
            w@ == cs@.subrange(i as int, j as int),
        decreases k - j,
    {
        w.push(cs[j]);
        assert(cs@.subrange(i as int, j + 1) =~= cs@.subrange(i as int, j as int).push(cs@[j as int]));
        j += 1;
    }
    (Ok(Some(word_token(&w))), k)
}

fn followed_by(cs: &Vec<char>, i: usize, c: char) -> (r: bool)
    requires
        i < cs.len(),
    ensures
        r == next_is(cs@, i as int, c),
{
    i + 1 < cs.len() && cs[i + 1] == c
}

fn scan_symbol(cs: &Vec<char>, i: usize) -> (r: (Result<Option<Token>, String>, usize))
    requires
        i < cs.len(),
    ensures
        step_view(r.0) == symbol_step(cs@, i as int).0,
        r.1 == symbol_step(cs@, i as int).1,
{
    let c = cs[i];
    if c == '&' { (Ok(Some(Token::Amp)), i + 1) }
    else if c == '+' { (Ok(Some(Token::Plus)), i + 1) }
    else if c == '*' { (Ok(Some(Token::Star)), i + 1) }
    else if c == '/' { (Ok(Some(Token::Slash)), i + 1) }
    else if c == '(' { (Ok(Some(Token::LParen)), i + 1) }
    else if c == ')' { (Ok(Some(Token::RParen)), i + 1) }
    else if c == '{' { (Ok(Some(Token::LBrace)), i + 1) }
    else if c == '}' { (Ok(Some(Token::RBrace)), i + 1) }
    else if c == ',' { (Ok(Some(Token::Comma)), i + 1) }
    else if c == ':' { (Ok(Some(Token::Colon)), i + 1) }
    else if c == '.' { (Ok(Some(Token::Dot)), i + 1) }
    else if c == ';' { (Ok(Some(Token::Semi)), i + 1) }
    else if c == '-' {
        if followed_by(cs, i, '>') { (Ok(Some(Token::Arrow)), i + 2) } else { (Ok(Some(Token::Minus)), i + 1) }
    } else if c == '=' {
        if followed_by(cs, i, '=') { (Ok(Some(Token::EqEq)), i + 2) } else { (Ok(Some(Token::Eq)), i + 1) }
    } else if c == '!' {
        if followed_by(cs, i, '=') {
            (Ok(Some(Token::BangEq)), i + 2)
        } else {
            (Err(String::from_str("unexpected !")), i + 1)
        }
    } else if c == '<' {
        if followed_by(cs, i, '=') { (Ok(Some(Token::Lte)), i + 2) } else { (Ok(Some(Token::Lt)), i + 1) }
    } else if c == '>' {
        if followed_by(cs, i, '=') { (Ok(Some(Token::Gte)), i + 2) } else { (Ok(Some(Token::Gt)), i + 1) }
    } else {
        let mut m = String::from_str("unexpected character: ");
        push_char(&mut m, c);
        (Err(m), i + 1)
    }
}

/// One lexer step at position `i`.
fn scan(cs: &Vec<char>, i: usize) -> (r: (Result<Option<Token>, String>, usize))
    requires
        i < cs.len(),
    ensures
        step_view(r.0) == lex_step(cs@, i as int).0,
        r.1 == lex_step(cs@, i as int).1,
{
    let c = cs[i];
    if char_is_space(c) {
        (Ok(None), i + 1)
    } else if c == '#' {
        let mut k = i;
        while k < cs.len() && cs[k] != '\n'
            invariant
                i <= k <= cs.len(),
                find_char(cs@, '\n', k as int) == find_char(cs@, '\n', i as int),
            decreases cs.len() - k,
        {
            k += 1;
        }
        (Ok(None), k)
    } else if is_digit_char(c) {
        scan_number(cs, i)
    } else if ('a' <= c && c <= 'z') || ('A' <= c && c <= 'Z') || c == '_' {
        scan_word(cs, i)
    } else if c == '"' {
        let s = i + 1;
        let mut k = s;
        while k < cs.len() && cs[k] != '"'
            invariant
                s <= k <= cs.len(),
                find_char(cs@, '"', k as int) == find_char(cs@, '"', s as int),
            decreases cs.len() - k,
        {
            k += 1;
        }
        if k == cs.len() {
            (Err(String::from_str("unterminated string")), k)
        } else {
            (Ok(Some(Token::Str(string_of_range(cs, s, k)))), k + 1)
        }
    } else {
        scan_symbol(cs, i)
    }
}

/// Splits source text into tokens, ending with `Token::Eof`.
pub fn lex(src: &str) -> (res: Result<Vec<Token>, String>)
    ensures
        match lexed(src@) {
            Ok(ls) => res is Ok && tokens_view(res->Ok_0@) == ls,
            Err(m) => res is Err && res->Err_0@ == m,
        },
{
    let cs = chars_of(src);
    let mut out: Vec<Token> = Vec::new();
    let mut i: usize = 0;
    assert(tokens_view(out@) =~= seq![]);
    while i < cs.len()
        invariant
            i <= cs.len(),
            cs@ == src@,
            lex_from(cs@, i as int, tokens_view(out@)) == lexed(src@),
        decreases cs.len() - i,
    {
        proof {
            lemma_step_advances(cs@, i as int);
        }
        let (r, j) = scan(&cs, i);
        match r {
            Err(m) => {
                return Err(m);
            },
            Ok(Some(t)) => {
                let ghost before = out@;
                out.push(t);
                assert(tokens_view(out@) =~= tokens_view(before).push(t@));
            },
            Ok(None) => {},
        }
        i = j;
    }
    let ghost before = out@;
    out.push(Token::Eof);
    assert(tokens_view(out@) =~= tokens_view(before).push(Lexeme::Eof));
    Ok(out)
}

/// A `#` comment runs to the end of its line: what follows the line break is
/// lexed as if the comment line were not there, and a comment at the very end
/// leaves only the end of input.
pub proof fn law_comment_ignored(c: Seq<char>, t: Seq<char>)
    requires
        forall|k: int| 0 <= k < c.len() ==> c[k] != '\n',
    ensures
        lexed(seq!['#'] + c + seq!['\n'] + t) == lexed(t),
        lexed(seq!['#'] + c) == lexed(seq![]),
{
    let p = seq!['#'] + c + seq!['\n'];
    let cs = p + t;
    let n = c.len() as int;
    lemma_find_char_range(cs, '\n', 0);
    assert(cs[n + 1] == '\n');
    assert forall|k: int| 0 <= k < n + 1 implies cs[k] != '\n' by {
        if k >= 1 {
            assert(cs[k] == c[k - 1]);
        }
    }
    assert(find_char(cs, '\n', 0) == n + 1);
    assert(lex_step(cs, 0) == (Ok::<Option<Lexeme>, Seq<char>>(None), n + 1));
    assert(lex_step(cs, n + 1) == (Ok::<Option<Lexeme>, Seq<char>>(None), n + 2));
    lemma_lex_from_shift(p, t, 0, seq![]);
    assert(lex_from(cs, n + 1, seq![]) == lex_from(cs, n + 2, seq![]));
    assert(lex_from(cs, 0, seq![]) == lex_from(cs, n + 1, seq![]));
    let e = seq!['#'] + c;
    lemma_find_char_range(e, '\n', 0);
    assert(forall|k: int| 1 <= k < e.len() ==> e[k] == c[k - 1]);
    assert(find_char(e, '\n', 0) == e.len());
    assert(lex_from(e, 0, seq![]) == lex_from(e, e.len() as int, seq![]));
}

/// Whitespace is skipped: any run of whitespace characters (those of
/// `char::is_whitespace`, `\r` and `\t` among them) before a text leaves its
/// tokens, or its error, as they are.
pub proof fn law_whitespace_skipped(w: Seq<char>, t: Seq<char>)
    requires
        forall|k: int| 0 <= k < w.len() ==> is_space(#[trigger] w[k]),
    ensures
        lexed(w + t) == lexed(t),
    decreases w.len(),
{
    if w.len() == 0 {
        assert(w + t =~= t);
    } else {
        let rest = w.drop_first();
        assert forall|k: int| 0 <= k < rest.len() implies is_space(#[trigger] rest[k]) by {
            assert(rest[k] == w[k + 1]);
        }
        law_whitespace_skipped(rest, t);
        let cs = w + t;
        let p = seq![w[0]];
        assert(cs =~= p + (rest + t));
        assert(cs[0] == w[0]);
        assert(lex_step(cs, 0) == (Ok::<Option<Lexeme>, Seq<char>>(None), 1int));
        assert(lex_from(cs, 0, seq![]) == lex_from(cs, 1, seq![]));
        lemma_lex_from_shift(p, rest + t, 0, seq![]);
    }
}

} // verus!
