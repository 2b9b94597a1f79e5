//! S+N++ recursive-descent parser.
//!
//! The grammar is stated as spec functions over the token sequence: each
//! takes a position and yields what it recognised there with the position
//! after it, or the error message the parser reports.  Where a production
//! repeats, the definition tests that the step before consumed input; the
//! parser's proofs show that every step does, so that test never fails.

use vstd::prelude::*;
use crate::ast::{
    exprs_model, functions_model, lemma_exprs_model_push, lemma_stmts_model_push, stmts_model,
    strings_model, Expr, ExprModel, Function, FunctionModel, Program, ProgramModel, Stmt,
    StmtModel, Type,
};
use crate::lexer::{lex, lexed, lex_from, lexeme_debug, tokens_view, Lexeme, Token};
use crate::text::same_text;

verus! {

/// What a production recognised and the position after it, or an error message.
pub type Parsed<T> = Result<(T, int), Seq<char>>;

pub open spec fn expected_message(wanted: Lexeme, got: Lexeme) -> Seq<char> {
    "expected "@ + lexeme_debug(wanted) + ", got "@ + lexeme_debug(got)
}

/// Consumes `wanted` at `p`.
pub open spec fn eat_at(ts: Seq<Lexeme>, p: int, wanted: Lexeme) -> Result<int, Seq<char>> {
    if ts[p] == wanted {
        Ok(p + 1)
    } else {
        Err(expected_message(wanted, ts[p]))
    }
}

/// The type a type name denotes.
pub open spec fn named_type(n: Seq<char>) -> Result<Type, Seq<char>> {
    if n == "Int"@ { Ok(Type::Int) }
    else if n == "String"@ { Ok(Type::Str) }
    else if n == "Bool"@ { Ok(Type::Bool) }
    else if n == "Unit"@ { Ok(Type::Unit) }
    else if n == "Channel"@ { Ok(Type::Channel) }
    else if n == "Thread"@ { Ok(Type::Thread) }
    else { Err("unknown type `"@ + n + "`"@) }
}

/// `type := '&' 'mut'? type | Ident`
pub open spec fn type_at(ts: Seq<Lexeme>, p: int) -> Parsed<Type>
    decreases ts.len() - p,
{
    if !(0 <= p < ts.len()) {
        Err(seq![])
    } else if ts[p] is Amp {
        if p + 1 < ts.len() && ts[p + 1] is Mut {
            match type_at(ts, p + 2) {
                Ok((t, q)) => Ok((Type::MutRef(Box::new(t)), q)),
                Err(e) => Err(e),
            }
        } else {
            match type_at(ts, p + 1) {
                Ok((t, q)) => Ok((Type::Ref(Box::new(t)), q)),
                Err(e) => Err(e),
            }
        }
    } else {
        match ts[p] {
            Lexeme::Ident(n) => match named_type(n) {
                Ok(t) => Ok((t, p + 1)),
                Err(e) => Err(e),
            },
            other => Err("expected type, got "@ + lexeme_debug(other)),
        }
    }
}

/// Module path segments joined with `.`.
pub open spec fn dotted(parts: Seq<Seq<char>>) -> Seq<char>
    decreases parts.len(),
{
    if parts.len() == 0 {
        seq![]
    } else if parts.len() == 1 {
        parts[0]
    } else {
        dotted(parts.drop_last()) + seq!['.'] + parts.last()
    }
}

/// The rest of a module path after its first segment: `('.' Ident)* ';'?`
pub open spec fn path_rest(ts: Seq<Lexeme>, p: int, parts: Seq<Seq<char>>) -> Parsed<Seq<char>>
    decreases ts.len() - p,
{
    if !(0 <= p < ts.len()) {
        Err(seq![])
    } else if ts[p] is Dot {
        if !(p + 1 < ts.len()) {
            Err(seq![])
        } else {
            match ts[p + 1] {
                Lexeme::Ident(n) => path_rest(ts, p + 2, parts.push(n)),
                other => Err("expected module name after `.`, got "@ + lexeme_debug(other)),
            }
        }
    } else if ts[p] is Semi {
        Ok((dotted(parts), p + 1))
    } else {
        Ok((dotted(parts), p))
    }
}

/// `import := 'import' Ident ('.' Ident)* ';'?`
pub open spec fn import_at(ts: Seq<Lexeme>, p: int) -> Parsed<Seq<char>> {
    match eat_at(ts, p, Lexeme::Import) {
        Err(e) => Err(e),
        Ok(q) => match ts[q] {
            Lexeme::Ident(n) => path_rest(ts, q + 1, seq![n]),
            other => Err("expected module name after import, got "@ + lexeme_debug(other)),
        },
    }
}

/// The imports at the head of a program.
pub open spec fn imports_from(ts: Seq<Lexeme>, p: int, acc: Seq<Seq<char>>) -> Parsed<Seq<Seq<char>>>
    decreases ts.len() - p,
{
    if !(0 <= p < ts.len()) {
        Err(seq![])
    } else if ts[p] is Import {
        match import_at(ts, p) {
            Err(e) => Err(e),
            Ok((path, q)) => if !(p < q <= ts.len()) { Err(seq![]) } else { imports_from(ts, q, acc.push(path)) },
        }
    } else {
        Ok((acc, p))
    }
}

/// Parameters after a name: `Ident ':' type (',' Ident ':' type)*`
pub open spec fn params_from(ts: Seq<Lexeme>, p: int, names: Seq<Seq<char>>, types: Seq<Type>) -> Parsed<(Seq<Seq<char>>, Seq<Type>)>
    decreases ts.len() - p,
{
    if !(0 <= p < ts.len()) {
        Err(seq![])
    } else {
        match ts[p] {
            Lexeme::Ident(n) => match eat_at(ts, p + 1, Lexeme::Colon) {
                Err(e) => Err(e),
                Ok(q) => match type_at(ts, q) {
                    Err(e) => Err(e),
                    Ok((t, r)) => if !(p < r < ts.len()) {
                        Err(seq![])
                    } else if ts[r] is Comma {
                        params_from(ts, r + 1, names.push(n), types.push(t))
                    } else {
                        Ok(((names.push(n), types.push(t)), r))
                    },
                },
            },
            _ => Err("expected parameter"@),
        }
    }
}

/// The parameter list inside the parentheses, possibly empty.
pub open spec fn params_at(ts: Seq<Lexeme>, p: int) -> Parsed<(Seq<Seq<char>>, Seq<Type>)> {
    if ts[p] is RParen {
        Ok(((seq![], seq![]), p))
    } else {
        params_from(ts, p, seq![], seq![])
    }
}

/// `('->' type)?`, `Unit` when absent.
pub open spec fn return_type_at(ts: Seq<Lexeme>, p: int) -> Parsed<Type> {
    if ts[p] is Arrow {
        type_at(ts, p + 1)
    } else {
        Ok((Type::Unit, p))
    }
}

/// `block := stmt (';')* ... '}'`, after the opening brace.
pub open spec fn block_at(ts: Seq<Lexeme>, p: int, acc: Seq<StmtModel>) -> Parsed<Seq<StmtModel>>
    decreases ts.len() - p, 8int,
{
    if !(0 <= p < ts.len()) {
        Err(seq![])
    } else if ts[p] is RBrace || ts[p] is Eof {
        match eat_at(ts, p, Lexeme::RBrace) {
            Ok(q) => Ok((acc, q)),
            Err(e) => Err(e),
        }
    } else {
        match stmt_at(ts, p) {
            Err(e) => Err(e),
            Ok((s, q)) => if !(p < q < ts.len()) {
                Err(seq![])
            } else {
                block_at(ts, if ts[q] is Semi { q + 1 } else { q }, acc.push(s))
            },
        }
    }
}

/// A statement.
pub open spec fn stmt_at(ts: Seq<Lexeme>, p: int) -> Parsed<StmtModel>
    decreases ts.len() - p, 7int,
{
    if !(0 <= p < ts.len()) {
        Err(seq![])
    } else {
        match ts[p] {
            Lexeme::Let => let_at(ts, p + 1),
            Lexeme::If => if_at(ts, p),
            Lexeme::While => while_at(ts, p),
            Lexeme::Return => match expr_at(ts, p + 1) {
                Ok((e, q)) => Ok((StmtModel::Return(e), q)),
                Err(m) => Err(m),
            },
            Lexeme::Ident(n) => if p + 1 < ts.len() && ts[p + 1] is Eq {
                match expr_at(ts, p + 2) {
                    Ok((e, q)) => Ok((StmtModel::Assign(n, e), q)),
                    Err(m) => Err(m),
                }
            } else {
                match expr_at(ts, p) {
                    Ok((e, q)) => Ok((StmtModel::Expr(e), q)),
                    Err(m) => Err(m),
                }
            },
            _ => match expr_at(ts, p) {
                Ok((e, q)) => Ok((StmtModel::Expr(e), q)),
                Err(m) => Err(m),
            },
        }
    }
}

/// `let` after the keyword: `Ident (':' type)? ('=' expr)?`
pub open spec fn let_at(ts: Seq<Lexeme>, p: int) -> Parsed<StmtModel>
    decreases ts.len() - p, 6int,
{
    if !(0 <= p < ts.len()) {
        Err(seq![])
    } else {
        match ts[p] {
            Lexeme::Ident(n) => if p + 1 < ts.len() && ts[p + 1] is Colon {
                match type_at(ts, p + 2) {
                    Err(e) => Err(e),
                    Ok((t, q)) => if !(p < q < ts.len()) {
                        Err(seq![])
                    } else if ts[q] is Eq {
                        match expr_at(ts, q + 1) {
                            Ok((e, r)) => Ok((StmtModel::Let(n, e), r)),
                            Err(m) => Err(m),
                        }
                    } else {
                        Ok((StmtModel::Decl(n, t), q))
                    },
                }
            } else if p + 1 < ts.len() && ts[p + 1] is Eq {
                match expr_at(ts, p + 2) {
                    Ok((e, r)) => Ok((StmtModel::Let(n, e), r)),
                    Err(m) => Err(m),
                }
            } else {
                Err("let requires an initializer or explicit type"@)
            },
            _ => Err("expected variable name"@),
        }
    }
}

/// `if expr '{' block ('else' '{' block)?`
pub open spec fn if_at(ts: Seq<Lexeme>, p: int) -> Parsed<StmtModel>
    decreases ts.len() - p, 6int,
{
    if !(0 <= p < ts.len()) {
        Err(seq![])
    } else {
        match expr_at(ts, p + 1) {
            Err(e) => Err(e),
            Ok((c, q)) => if !(p < q < ts.len()) {
                Err(seq![])
            } else {
                match eat_at(ts, q, Lexeme::LBrace) {
                    Err(e) => Err(e),
                    Ok(q1) => match block_at(ts, q1, seq![]) {
                        Err(e) => Err(e),
                        Ok((yes, r)) => if !(p < r < ts.len()) {
                            Err(seq![])
                        } else if ts[r] is Else {
                            if !(r + 1 < ts.len()) {
                                Err(seq![])
                            } else {
                                match eat_at(ts, r + 1, Lexeme::LBrace) {
                                    Err(e) => Err(e),
                                    Ok(r1) => match block_at(ts, r1, seq![]) {
                                        Err(e) => Err(e),
                                        Ok((no, r2)) => Ok((StmtModel::If(c, yes, no), r2)),
                                    },
                                }
                            }
                        } else {
                            Ok((StmtModel::If(c, yes, seq![]), r))
                        },
                    },
                }
            },
        }
    }
}

/// `while expr '{' block`
pub open spec fn while_at(ts: Seq<Lexeme>, p: int) -> Parsed<StmtModel>
    decreases ts.len() - p, 6int,
{
    if !(0 <= p < ts.len()) {
        Err(seq![])
    } else {
        match expr_at(ts, p + 1) {
            Err(e) => Err(e),
            Ok((c, q)) => if !(p < q < ts.len()) {
                Err(seq![])
            } else {
                match eat_at(ts, q, Lexeme::LBrace) {
                    Err(e) => Err(e),
                    Ok(q1) => match block_at(ts, q1, seq![]) {
                        Err(e) => Err(e),
                        Ok((body, r)) => Ok((StmtModel::While(c, body), r)),
                    },
                }
            },
        }
    }
}

/// An expression: comparisons of sums of products of atoms, all left-associative.
pub open spec fn expr_at(ts: Seq<Lexeme>, p: int) -> Parsed<ExprModel>
    decreases ts.len() - p, 5int,
{
    if !(0 <= p < ts.len()) {
        Err(seq![])
    } else {
        compare_at(ts, p)
    }
}

pub open spec fn is_compare_op(t: Lexeme) -> bool {
    t is EqEq || t is BangEq || t is Lt || t is Lte || t is Gt || t is Gte
}

pub open spec fn is_add_op(t: Lexeme) -> bool {
    t is Plus || t is Minus
}

pub open spec fn is_mul_op(t: Lexeme) -> bool {
    t is Star || t is Slash
}

pub open spec fn compare_at(ts: Seq<Lexeme>, p: int) -> Parsed<ExprModel>
    decreases ts.len() - p, 4int,
{
    if !(0 <= p < ts.len()) {
        Err(seq![])
    } else {
        match add_at(ts, p) {
            Err(e) => Err(e),
            Ok((e, q)) => if !(p < q < ts.len()) { Err(seq![]) } else { compare_rest(ts, q, e) },
        }
    }
}

pub open spec fn compare_rest(ts: Seq<Lexeme>, p: int, lhs: ExprModel) -> Parsed<ExprModel>
    decreases ts.len() - p, 0int,
{
    if !(0 <= p < ts.len()) {
        Err(seq![])
    } else if is_compare_op(ts[p]) {
        match add_at(ts, p + 1) {
            Err(e) => Err(e),
            Ok((rhs, q)) => if !(p < q < ts.len()) {
                Err(seq![])
            } else {
                compare_rest(ts, q, ExprModel::Binary(Box::new(lhs), ts[p], Box::new(rhs)))
            },
        }
    } else {
        Ok((lhs, p))
    }
}

pub open spec fn add_at(ts: Seq<Lexeme>, p: int) -> Parsed<ExprModel>
    decreases ts.len() - p, 3int,
{
    if !(0 <= p < ts.len()) {
        Err(seq![])
    } else {
        match mul_at(ts, p) {
            Err(e) => Err(e),
            Ok((e, q)) => if !(p < q < ts.len()) { Err(seq![]) } else { add_rest(ts, q, e) },
        }
    }
}

pub open spec fn add_rest(ts: Seq<Lexeme>, p: int, lhs: ExprModel) -> Parsed<ExprModel>
    decreases ts.len() - p, 0int,
{
    if !(0 <= p < ts.len()) {
        Err(seq![])
    } else if is_add_op(ts[p]) {
        match mul_at(ts, p + 1) {
            Err(e) => Err(e),
            Ok((rhs, q)) => if !(p < q < ts.len()) {
                Err(seq![])
            } else {
                add_rest(ts, q, ExprModel::Binary(Box::new(lhs), ts[p], Box::new(rhs)))
            },
        }
    } else {
        Ok((lhs, p))
    }
}

pub open spec fn mul_at(ts: Seq<Lexeme>, p: int) -> Parsed<ExprModel>
    decreases ts.len() - p, 2int,
{
    if !(0 <= p < ts.len()) {
        Err(seq![])
    } else {
        match atom_at(ts, p) {
            Err(e) => Err(e),
            Ok((e, q)) => if !(p < q < ts.len()) { Err(seq![]) } else { mul_rest(ts, q, e) },
        }
    }
}

pub open spec fn mul_rest(ts: Seq<Lexeme>, p: int, lhs: ExprModel) -> Parsed<ExprModel>
    decreases ts.len() - p, 0int,
{
    if !(0 <= p < ts.len()) {
        Err(seq![])
    } else if is_mul_op(ts[p]) {
        match atom_at(ts, p + 1) {
            Err(e) => Err(e),
            Ok((rhs, q)) => if !(p < q < ts.len()) {
                Err(seq![])
            } else {
                mul_rest(ts, q, ExprModel::Binary(Box::new(lhs), ts[p], Box::new(rhs)))
            },
        }
    } else {
        Ok((lhs, p))
    }
}

/// Literals, variables, calls and parenthesised expressions.
pub open spec fn atom_at(ts: Seq<Lexeme>, p: int) -> Parsed<ExprModel>
    decreases ts.len() - p, 1int,
{
    if !(0 <= p < ts.len()) {
        Err(seq![])
    } else {
        match ts[p] {
            Lexeme::Int(v) => Ok((ExprModel::Int(v), p + 1)),
            Lexeme::Str(s) => Ok((ExprModel::Str(s), p + 1)),
            Lexeme::True => Ok((ExprModel::Bool(true), p + 1)),
            Lexeme::False => Ok((ExprModel::Bool(false), p + 1)),
            Lexeme::Ident(n) => if p + 1 < ts.len() && ts[p + 1] is LParen {
                if !(p + 2 < ts.len()) {
                    Err(seq![])
                } else if ts[p + 2] is RParen {
                    Ok((ExprModel::Call(n, seq![]), p + 3))
                } else {
                    match args_from(ts, p + 2, seq![]) {
                        Err(e) => Err(e),
                        Ok((args, q)) => match eat_at(ts, q, Lexeme::RParen) {
                            Ok(q1) => Ok((ExprModel::Call(n, args), q1)),
                            Err(e) => Err(e),
                        },
                    }
                }
            } else {
                Ok((ExprModel::Var(n), p + 1))
            },
            Lexeme::LParen => match expr_at(ts, p + 1) {
                Err(e) => Err(e),
                Ok((e, q)) => match eat_at(ts, q, Lexeme::RParen) {
                    Ok(q1) => Ok((e, q1)),
                    Err(m) => Err(m),
                },
            },
            other => Err("unexpected token "@ + lexeme_debug(other)),
        }
    }
}

/// Call arguments: `expr (',' expr)*`
pub open spec fn args_from(ts: Seq<Lexeme>, p: int, acc: Seq<ExprModel>) -> Parsed<Seq<ExprModel>>
    decreases ts.len() - p, 6int,
{
    if !(0 <= p < ts.len()) {
        Err(seq![])
    } else {
        match expr_at(ts, p) {
            Err(e) => Err(e),
            Ok((e, q)) => if !(p < q < ts.len()) {
                Err(seq![])
            } else if ts[q] is Comma {
                args_from(ts, q + 1, acc.push(e))
            } else {
                Ok((acc.push(e), q))
            },
        }
    }
}

/// `fn Ident '(' params ')' ('->' type)? '{' block`
pub open spec fn function_at(ts: Seq<Lexeme>, p: int) -> Parsed<FunctionModel> {
    match eat_at(ts, p, Lexeme::Fn) {
        Err(e) => Err(e),
        Ok(p1) => match ts[p1] {
            Lexeme::Ident(name) => match eat_at(ts, p1 + 1, Lexeme::LParen) {
                Err(e) => Err(e),
                Ok(p2) => match params_at(ts, p2) {
                    Err(e) => Err(e),
                    Ok(((names, types), p3)) => match eat_at(ts, p3, Lexeme::RParen) {
                        Err(e) => Err(e),
                        Ok(p4) => match return_type_at(ts, p4) {
                            Err(e) => Err(e),
                            Ok((rt, p5)) => match eat_at(ts, p5, Lexeme::LBrace) {
                                Err(e) => Err(e),
                                Ok(p6) => match block_at(ts, p6, seq![]) {
                                    Err(e) => Err(e),
                                    Ok((body, p7)) => Ok((
                                        FunctionModel {
                                            name,
                                            params: names,
                                            param_types: types,
                                            return_type: rt,
                                            body,
                                        },
                                        p7,
                                    )),
                                },
                            },
                        },
                    },
                },
            },
            _ => Err("expected function name"@),
        },
    }
}

/// The functions of a program, up to the end of the tokens.
pub open spec fn functions_from(ts: Seq<Lexeme>, p: int, acc: Seq<FunctionModel>) -> Result<Seq<FunctionModel>, Seq<char>>
    decreases ts.len() - p,
{
    if !(0 <= p < ts.len()) {
        Err(seq![])
    } else if ts[p] is Eof {
        Ok(acc)
    } else {
        match function_at(ts, p) {
            Err(e) => Err(e),
            Ok((f, q)) => if !(p < q <= ts.len()) { Err(seq![]) } else { functions_from(ts, q, acc.push(f)) },
        }
    }
}

/// `program := import* function*`
pub open spec fn program_of(ts: Seq<Lexeme>) -> Result<ProgramModel, Seq<char>> {
    match imports_from(ts, 0, seq![]) {
        Err(e) => Err(e),
        Ok((imports, p)) => match functions_from(ts, p, seq![]) {
            Err(e) => Err(e),
            Ok(functions) => Ok(ProgramModel { imports, functions }),
        },
    }
}

/// The program a source text denotes, or the first error met lexing or parsing it.
pub open spec fn parsed_program(src: Seq<char>) -> Result<ProgramModel, Seq<char>> {
    match lexed(src) {
        Err(m) => Err(m),
        Ok(ts) => program_of(ts),
    }
}


struct Parser {
    tokens: Vec<Token>,
    position: usize,
}

impl Parser {
    spec fn wf(&self) -> bool {
        &&& self.tokens@.len() > 0
        &&& self.tokens@.last()@ is Eof
        &&& self.position < self.tokens@.len()
    }

    spec fn toks(&self) -> Seq<Lexeme> {
        tokens_view(self.tokens@)
    }

    spec fn pos(&self) -> int {
        self.position as int
    }

    fn new(tokens: Vec<Token>) -> (p: Self)
        ensures
            p.tokens == tokens,
            p.position == 0,
    {
        Self { tokens, position: 0 }
    }

    fn current(&self) -> (t: &Token)
        requires
            self.wf(),
        ensures
            t@ == self.toks()[self.pos()],
    {
        &self.tokens[self.position]
    }

    fn bump(&mut self) -> (t: Token)
        requires
            old(self).wf(),
        ensures
            final(self).tokens == old(self).tokens,
            final(self).position == old(self).position + 1,
            t@ == old(self).toks()[old(self).pos()],
            !(t@ is Eof) ==> final(self).wf(),
    {
        let t = self.tokens[self.position].duplicate();
        let n = self.tokens.len();
        assert(self.position < n);
        self.position += 1;
        t
    }

    fn eat(&mut self, wanted: Token) -> (res: Result<(), String>)
        requires
            old(self).wf(),
            !(wanted@ is Eof),
        ensures
            final(self).tokens == old(self).tokens,
            match eat_at(old(self).toks(), old(self).pos(), wanted@) {
                Ok(q) => res is Ok && final(self).pos() == q && final(self).wf(),
                Err(m) => res is Err && res->Err_0@ == m,
            },
    {
        if self.current().same(&wanted) {
            self.bump();
            Ok(())
        } else {
            let mut m = String::from_str("expected ");
            m.append(wanted.debug_string().as_str());
            m.append(", got ");
            m.append(self.current().debug_string().as_str());
            Err(m)
        }
    }

    fn program(&mut self) -> (res: Result<Program, String>)
        requires
            old(self).wf(),
            old(self).position == 0,
        ensures
            match program_of(old(self).toks()) {
                Ok(pm) => res is Ok && res->Ok_0@ == pm,
                Err(m) => res is Err && res->Err_0@ == m,
            },
    {
        let ghost ts = self.toks();
        let mut imports: Vec<String> = Vec::new();
        assert(strings_model(imports@) =~= seq![]);
        while matches!(self.current(), Token::Import)
            invariant
                self.wf(),
                self.toks() == ts,
                ts == old(self).toks(),
                imports_from(ts, self.pos(), strings_model(imports@)) == imports_from(ts, 0, seq![]),
            decreases self.tokens@.len() - self.position,
        {
            let path = self.import_path()?;
            let ghost before = imports@;
            imports.push(path);
            assert(strings_model(imports@) =~= strings_model(before).push(path@));
        }
        let ghost p = self.pos();
        assert(imports_from(ts, self.pos(), strings_model(imports@)) == Ok::<_, Seq<char>>((strings_model(imports@), p)));
        let mut functions: Vec<Function> = Vec::new();
        assert(functions_model(functions@) =~= seq![]);
        while !matches!(self.current(), Token::Eof)
            invariant
                self.wf(),
                self.toks() == ts,
                ts == old(self).toks(),
                imports_from(ts, 0, seq![]) == Ok::<_, Seq<char>>((strings_model(imports@), p)),
                functions_from(ts, self.pos(), functions_model(functions@)) == functions_from(ts, p, seq![]),
            decreases self.tokens@.len() - self.position,
        {
            let f = self.function()?;
            let ghost before = functions@;
            functions.push(f);
            assert(functions_model(functions@) =~= functions_model(before).push(f@));
        }
        Ok(Program { imports, functions })
    }

    fn import_path(&mut self) -> (res: Result<String, String>)
        requires
            old(self).wf(),
        ensures
            final(self).tokens == old(self).tokens,
            match import_at(old(self).toks(), old(self).pos()) {
                Ok((path, q)) => res is Ok && res->Ok_0@ == path && final(self).pos() == q && final(self).wf(),
                Err(m) => res is Err && res->Err_0@ == m,
            },
            res is Ok ==> final(self).pos() > old(self).pos(),
    {
        let ghost ts = self.toks();
        self.eat(Token::Import)?;
        let mut joined = match self.bump() {
            Token::Ident(name) => name,
            token => {
                let mut m = String::from_str("expected module name after import, got ");
                m.append(token.debug_string().as_str());
                return Err(m);
            },
        };
        let ghost mut parts: Seq<Seq<char>> = seq![joined@];
        assert(dotted(parts) == joined@);
        while matches!(self.current(), Token::Dot)
            invariant
                self.wf(),
                self.toks() == ts,
                self.tokens == old(self).tokens,
                self.pos() > old(self).pos(),
                parts.len() > 0,
                joined@ == dotted(parts),
                path_rest(ts, self.pos(), parts) == import_at(ts, old(self).pos()),
            decreases self.tokens@.len() - self.position,
        {
            self.bump();
            match self.bump() {
                Token::Ident(name) => {
                    push_dot(&mut joined);
                    joined.append(name.as_str());
                    proof {
                        let np = parts.push(name@);
                        assert(np.drop_last() =~= parts);
                        parts = np;
                    }
                },
                token => {
                    let mut m = String::from_str("expected module name after `.`, got ");
                    m.append(token.debug_string().as_str());
                    return Err(m);
                },
            }
        }
        if matches!(self.current(), Token::Semi) {
            self.bump();
        }
        Ok(joined)
    }

    fn parse_type(&mut self) -> (res: Result<Type, String>)
        requires
            old(self).wf(),
        ensures
            final(self).tokens == old(self).tokens,
            match type_at(old(self).toks(), old(self).pos()) {
                Ok((t, q)) => res is Ok && res->Ok_0 == t && final(self).pos() == q && final(self).wf(),
                Err(m) => res is Err && res->Err_0@ == m,
            },
            res is Ok ==> final(self).pos() > old(self).pos(),
        decreases old(self).tokens@.len() - old(self).position,
    {
        if matches!(self.current(), Token::Amp) {
            self.bump();
            if matches!(self.current(), Token::Mut) {
                self.bump();
                let t = self.parse_type()?;
                return Ok(Type::MutRef(Box::new(t)));
            }
            let t = self.parse_type()?;
            return Ok(Type::Ref(Box::new(t)));
        }
        match self.bump() {
            Token::Ident(name) => {
                if same_text(name.as_str(), "Int") {
                    Ok(Type::Int)
                } else if same_text(name.as_str(), "String") {
                    Ok(Type::Str)
                } else if same_text(name.as_str(), "Bool") {
                    Ok(Type::Bool)
                } else if same_text(name.as_str(), "Unit") {
                    Ok(Type::Unit)
                } else if same_text(name.as_str(), "Channel") {
                    Ok(Type::Channel)
                } else if same_text(name.as_str(), "Thread") {
                    Ok(Type::Thread)
                } else {
                    let mut m = String::from_str("unknown type `");
                    m.append(name.as_str());
                    m.append("`");
                    Err(m)
                }
            },
            token => {
                let mut m = String::from_str("expected type, got ");
                m.append(token.debug_string().as_str());
                Err(m)
            },
        }
    }

    fn function(&mut self) -> (res: Result<Function, String>)
        requires
            old(self).wf(),
        ensures
            final(self).tokens == old(self).tokens,
            match function_at(old(self).toks(), old(self).pos()) {
                Ok((f, q)) => res is Ok && res->Ok_0@ == f && final(self).pos() == q && final(self).wf(),
                Err(m) => res is Err && res->Err_0@ == m,
            },
            res is Ok ==> final(self).pos() > old(self).pos(),
    {
        let ghost ts = self.toks();
        let ghost p0 = self.pos();
        self.eat(Token::Fn)?;
        let name = match self.bump() {
            Token::Ident(name) => name,
            _ => {
                return Err(String::from_str("expected function name"));
            },
        };
        self.eat(Token::LParen)?;
        let ghost p2 = self.pos();
        let mut params: Vec<String> = Vec::new();
        let mut param_types: Vec<Type> = Vec::new();
        if !matches!(self.current(), Token::RParen) {
            assert(strings_model(params@) =~= seq![]);
            loop
                invariant_except_break
                    self.wf(),
                    self.toks() == ts,
                    self.tokens == old(self).tokens,
                    self.pos() >= p2,
                    ts == old(self).toks(),
                    p0 == old(self).pos(),
                    eat_at(ts, p0, Lexeme::Fn) == Ok::<_, Seq<char>>(p0 + 1),
                    ts[p0 + 1] == Lexeme::Ident(name@),
                    eat_at(ts, p0 + 2, Lexeme::LParen) == Ok::<_, Seq<char>>(p2),
                    !(ts[p2] is RParen),
                    params_from(ts, self.pos(), strings_model(params@), param_types@) == params_at(ts, p2),
                ensures
                    self.wf(),
                    self.toks() == ts,
                    self.tokens == old(self).tokens,
                    self.pos() >= p2,
                    ts == old(self).toks(),
                    p0 == old(self).pos(),
                    eat_at(ts, p0, Lexeme::Fn) == Ok::<_, Seq<char>>(p0 + 1),
                    ts[p0 + 1] == Lexeme::Ident(name@),
                    eat_at(ts, p0 + 2, Lexeme::LParen) == Ok::<_, Seq<char>>(p2),
                    params_at(ts, p2) == Ok::<_, Seq<char>>(((strings_model(params@), param_types@), self.pos())),
                decreases self.tokens@.len() - self.position,
            {
                let ghost q = self.pos();
                let pname = match self.bump() {
                    Token::Ident(n) => n,
                    _ => {
                        return Err(String::from_str("expected parameter"));
                    },
                };
                self.eat(Token::Colon)?;
                let t = self.parse_type()?;
                let ghost before = params@;
                params.push(pname);
                param_types.push(t);
                assert(strings_model(params@) =~= strings_model(before).push(pname@));
                if matches!(self.current(), Token::Comma) {
                    self.bump();
                } else {
                    break;
                }
            }
        } else {
            assert(strings_model(params@) =~= seq![]);
        }
        self.eat(Token::RParen)?;
        let return_type = if matches!(self.current(), Token::Arrow) {
            self.bump();
            self.parse_type()?
        } else {
            Type::Unit
        };
        self.eat(Token::LBrace)?;
        let body = self.block()?;
        Ok(Function { name, params, param_types, return_type, body })
    }

    fn block(&mut self) -> (res: Result<Vec<Stmt>, String>)
        requires
            old(self).wf(),
        ensures
            final(self).tokens == old(self).tokens,
            match block_at(old(self).toks(), old(self).pos(), seq![]) {
                Ok((b, q)) => res is Ok && stmts_model(res->Ok_0@) == b && final(self).pos() == q && final(self).wf(),
                Err(m) => res is Err && res->Err_0@ == m,
            },
            res is Ok ==> final(self).pos() > old(self).pos(),
        decreases old(self).tokens@.len() - old(self).position, 8int,
    {
        let ghost ts = self.toks();
        let ghost p0 = self.pos();
        let mut statements: Vec<Stmt> = Vec::new();
        assert(stmts_model(statements@) =~= seq![]);
        while !matches!(self.current(), Token::RBrace) && !matches!(self.current(), Token::Eof)
            invariant
                self.wf(),
                self.toks() == ts,
                self.tokens == old(self).tokens,
                self.pos() >= p0,
                p0 == old(self).pos(),
                block_at(ts, self.pos(), stmts_model(statements@)) == block_at(ts, p0, seq![]),
            decreases self.tokens@.len() - self.position,
        {
            let s = self.statement()?;
            let ghost before = statements@;
            statements.push(s);
            proof {
                lemma_stmts_model_push(before, s);
            }
            if matches!(self.current(), Token::Semi) {
                self.bump();
            }
        }
        self.eat(Token::RBrace)?;
        Ok(statements)
    }

    fn statement(&mut self) -> (res: Result<Stmt, String>)
        requires
            old(self).wf(),
        ensures
            final(self).tokens == old(self).tokens,
            match stmt_at(old(self).toks(), old(self).pos()) {
                Ok((s, q)) => res is Ok && res->Ok_0@ == s && final(self).pos() == q && final(self).wf(),
                Err(m) => res is Err && res->Err_0@ == m,
            },
            res is Ok ==> final(self).pos() > old(self).pos(),
        decreases old(self).tokens@.len() - old(self).position, 7int,
    {
        match self.current() {
            Token::Let => {
                self.bump();
                self.let_statement()
            },
            Token::If => self.if_statement(),
            Token::While => self.while_statement(),
            Token::Return => {
                self.bump();
                Ok(Stmt::Return(self.expression()?))
            },
            Token::Ident(_) => {
                if self.next_is_eq() {
                    let name = match self.bump() {
                        Token::Ident(name) => name,
                        _ => String::new(),
                    };
                    self.bump();
                    return Ok(Stmt::Assign(name, self.expression()?));
                }
                Ok(Stmt::Expr(self.expression()?))
            },
            _ => Ok(Stmt::Expr(self.expression()?)),
        }
    }

    fn next_is_eq(&self) -> (r: bool)
        requires
            self.wf(),
        ensures
            r == (self.pos() + 1 < self.toks().len() && self.toks()[self.pos() + 1] is Eq),
    {
        let n = self.tokens.len();
        self.position + 1 < n && matches!(self.tokens[self.position + 1], Token::Eq)
    }

    fn let_statement(&mut self) -> (res: Result<Stmt, String>)
        requires
            old(self).wf(),
        ensures
            final(self).tokens == old(self).tokens,
            match let_at(old(self).toks(), old(self).pos()) {
                Ok((s, q)) => res is Ok && res->Ok_0@ == s && final(self).pos() == q && final(self).wf(),
                Err(m) => res is Err && res->Err_0@ == m,
            },
            res is Ok ==> final(self).pos() > old(self).pos(),
        decreases old(self).tokens@.len() - old(self).position, 6int,
    {
        let name = match self.bump() {
            Token::Ident(name) => name,
            _ => {
                return Err(String::from_str("expected variable name"));
            },
        };
        let declared = if matches!(self.current(), Token::Colon) {
            self.bump();
            Some(self.parse_type()?)
        } else {
            None
        };
        if !matches!(self.current(), Token::Eq) {
            if let Some(ty) = declared {
                return Ok(Stmt::Decl(name, ty));
            }
            return Err(String::from_str("let requires an initializer or explicit type"));
        }
        self.bump();
        Ok(Stmt::Let(name, self.expression()?))
    }

    fn if_statement(&mut self) -> (res: Result<Stmt, String>)
        requires
            old(self).wf(),
            old(self).toks()[old(self).pos()] is If,
        ensures
            final(self).tokens == old(self).tokens,
            match if_at(old(self).toks(), old(self).pos()) {
                Ok((s, q)) => res is Ok && res->Ok_0@ == s && final(self).pos() == q && final(self).wf(),
                Err(m) => res is Err && res->Err_0@ == m,
            },
            res is Ok ==> final(self).pos() > old(self).pos(),
        decreases old(self).tokens@.len() - old(self).position, 6int,
    {
        self.bump();
        let condition = self.expression()?;
        self.eat(Token::LBrace)?;
        let yes = self.block()?;
        let no = if matches!(self.current(), Token::Else) {
            self.bump();
            self.eat(Token::LBrace)?;
            self.block()?
        } else {
            let empty: Vec<Stmt> = Vec::new();
            assert(stmts_model(empty@) =~= seq![]);
            empty
        };
        Ok(Stmt::If(condition, yes, no))
    }

    fn while_statement(&mut self) -> (res: Result<Stmt, String>)
        requires
            old(self).wf(),
            old(self).toks()[old(self).pos()] is While,
        ensures
            final(self).tokens == old(self).tokens,
            match while_at(old(self).toks(), old(self).pos()) {
                Ok((s, q)) => res is Ok && res->Ok_0@ == s && final(self).pos() == q && final(self).wf(),
                Err(m) => res is Err && res->Err_0@ == m,
            },
            res is Ok ==> final(self).pos() > old(self).pos(),
        decreases old(self).tokens@.len() - old(self).position, 6int,
    {
        self.bump();
        let condition = self.expression()?;
        self.eat(Token::LBrace)?;
        Ok(Stmt::While(condition, self.block()?))
    }

    fn expression(&mut self) -> (res: Result<Expr, String>)
        requires
            old(self).wf(),
        ensures
            final(self).tokens == old(self).tokens,
            match expr_at(old(self).toks(), old(self).pos()) {
                Ok((e, q)) => res is Ok && res->Ok_0@ == e && final(self).pos() == q && final(self).wf(),
                Err(m) => res is Err && res->Err_0@ == m,
            },
            res is Ok ==> final(self).pos() > old(self).pos(),
        decreases old(self).tokens@.len() - old(self).position, 5int,
    {
        self.compare()
    }

    fn compare(&mut self) -> (res: Result<Expr, String>)
        requires
            old(self).wf(),
        ensures
            final(self).tokens == old(self).tokens,
            match compare_at(old(self).toks(), old(self).pos()) {
                Ok((e, q)) => res is Ok && res->Ok_0@ == e && final(self).pos() == q && final(self).wf(),
                Err(m) => res is Err && res->Err_0@ == m,
            },
            res is Ok ==> final(self).pos() > old(self).pos(),
        decreases old(self).tokens@.len() - old(self).position, 4int,
    {
        let ghost ts = self.toks();
        let mut expression = self.add()?;
        while is_compare_token(self.current())
            invariant
                self.wf(),
                self.toks() == ts,
                self.tokens == old(self).tokens,
                self.pos() > old(self).pos(),
                compare_rest(ts, self.pos(), expression@) == compare_at(ts, old(self).pos()),
            decreases self.tokens@.len() - self.position,
        {
            let op = self.bump();
            let rhs = self.add()?;
            expression = Expr::Binary(Box::new(expression), op, Box::new(rhs));
        }
        Ok(expression)
    }

    fn add(&mut self) -> (res: Result<Expr, String>)
        requires
            old(self).wf(),
        ensures
            final(self).tokens == old(self).tokens,
            match add_at(old(self).toks(), old(self).pos()) {
                Ok((e, q)) => res is Ok && res->Ok_0@ == e && final(self).pos() == q && final(self).wf(),
                Err(m) => res is Err && res->Err_0@ == m,
            },
            res is Ok ==> final(self).pos() > old(self).pos(),
        decreases old(self).tokens@.len() - old(self).position, 3int,
    {
        let ghost ts = self.toks();
        let mut expression = self.multiply()?;
        while is_add_token(self.current())
            invariant
                self.wf(),
                self.toks() == ts,
                self.tokens == old(self).tokens,
                self.pos() > old(self).pos(),
                add_rest(ts, self.pos(), expression@) == add_at(ts, old(self).pos()),
            decreases self.tokens@.len() - self.position,
        {
            let op = self.bump();
            let rhs = self.multiply()?;
            expression = Expr::Binary(Box::new(expression), op, Box::new(rhs));
        }
        Ok(expression)
    }

    fn multiply(&mut self) -> (res: Result<Expr, String>)
        requires
            old(self).wf(),
        ensures
            final(self).tokens == old(self).tokens,
            match mul_at(old(self).toks(), old(self).pos()) {
                Ok((e, q)) => res is Ok && res->Ok_0@ == e && final(self).pos() == q && final(self).wf(),
                Err(m) => res is Err && res->Err_0@ == m,
            },
            res is Ok ==> final(self).pos() > old(self).pos(),
        decreases old(self).tokens@.len() - old(self).position, 2int,
    {
        let ghost ts = self.toks();
        let mut expression = self.atom()?;
        while is_mul_token(self.current())
            invariant
                self.wf(),
                self.toks() == ts,
                self.tokens == old(self).tokens,
                self.pos() > old(self).pos(),
                mul_rest(ts, self.pos(), expression@) == mul_at(ts, old(self).pos()),
            decreases self.tokens@.len() - self.position,
        {
            let op = self.bump();
            let rhs = self.atom()?;
            expression = Expr::Binary(Box::new(expression), op, Box::new(rhs));
        }
        Ok(expression)
    }

    fn atom(&mut self) -> (res: Result<Expr, String>)
        requires
            old(self).wf(),
        ensures
            final(self).tokens == old(self).tokens,
            match atom_at(old(self).toks(), old(self).pos()) {
                Ok((e, q)) => res is Ok && res->Ok_0@ == e && final(self).pos() == q && final(self).wf(),
                Err(m) => res is Err && res->Err_0@ == m,
            },
            res is Ok ==> final(self).pos() > old(self).pos(),
        decreases old(self).tokens@.len() - old(self).position, 1int,
    {
        let ghost ts = self.toks();
        match self.bump() {
            Token::Int(value) => Ok(Expr::Int(value)),
            Token::Str(value) => Ok(Expr::Str(value)),
            Token::True => Ok(Expr::Bool(true)),
            Token::False => Ok(Expr::Bool(false)),
            Token::Ident(name) => {
                if matches!(self.current(), Token::LParen) {
                    self.bump();
                    let mut args: Vec<Expr> = Vec::new();
                    let ghost p2 = self.pos();
                    assert(exprs_model(args@) =~= seq![]);
                    if !matches!(self.current(), Token::RParen) {
                        loop
                            invariant_except_break
                                self.wf(),
                                self.toks() == ts,
                                self.tokens == old(self).tokens,
                                self.pos() >= p2,
                                p2 == old(self).pos() + 2,
                                ts == old(self).toks(),
                                ts[old(self).pos()] == Lexeme::Ident(name@),
                                ts[old(self).pos() + 1] is LParen,
                                p2 < ts.len(),
                                !(ts[p2] is RParen),
                                args_from(ts, self.pos(), exprs_model(args@)) == args_from(ts, p2, seq![]),
                            ensures
                                self.wf(),
                                self.toks() == ts,
                                self.tokens == old(self).tokens,
                                self.pos() >= p2,
                                p2 == old(self).pos() + 2,
                                ts == old(self).toks(),
                                ts[old(self).pos()] == Lexeme::Ident(name@),
                                ts[old(self).pos() + 1] is LParen,
                                p2 < ts.len(),
                                !(ts[p2] is RParen),
                                args_from(ts, p2, seq![]) == Ok::<_, Seq<char>>((exprs_model(args@), self.pos())),
                            decreases self.tokens@.len() - self.position,
                        {
                            let e = self.expression()?;
                            let ghost before = args@;
                            args.push(e);
                            proof {
                                lemma_exprs_model_push(before, e);
                            }
                            if matches!(self.current(), Token::Comma) {
                                self.bump();
                            } else {
                                break;
                            }
                        }
                    }
                    self.eat(Token::RParen)?;
                    Ok(Expr::Call(name, args))
                } else {
                    Ok(Expr::Var(name))
                }
            },
            Token::LParen => {
                let expression = self.expression()?;
                self.eat(Token::RParen)?;
                Ok(expression)
            },
            token => {
                let mut m = String::from_str("unexpected token ");
                m.append(token.debug_string().as_str());
                Err(m)
            },
        }
    }
}

fn push_dot(s: &mut String)
    ensures
        final(s)@ == old(s)@ + seq!['.'],
{
    crate::text::push_char(s, '.');
    assert(old(s)@.push('.') =~= old(s)@ + seq!['.']);
}

fn is_compare_token(t: &Token) -> (r: bool)
    ensures
        r == is_compare_op(t@),
{
    matches!(t, Token::EqEq | Token::BangEq | Token::Lt | Token::Lte | Token::Gt | Token::Gte)
}

fn is_add_token(t: &Token) -> (r: bool)
    ensures
        r == is_add_op(t@),
{
    matches!(t, Token::Plus | Token::Minus)
}

fn is_mul_token(t: &Token) -> (r: bool)
    ensures
        r == is_mul_op(t@),
{
    matches!(t, Token::Star | Token::Slash)
}

/// A successful lexing run ends with the end-of-input token, which occurs nowhere else.
pub proof fn lemma_lex_from_ends_with_eof(cs: Seq<char>, i: int, acc: Seq<Lexeme>)
    requires
        forall|k: int| 0 <= k < acc.len() ==> !(#[trigger] acc[k] is Eof),
    ensures
        lex_from(cs, i, acc) matches Ok(ls) ==> {
            &&& ls.len() > 0
            &&& ls.last() is Eof
            &&& forall|k: int| 0 <= k < ls.len() - 1 ==> !(#[trigger] ls[k] is Eof)
        },
    decreases cs.len() - i,
{
    if i < 0 || i >= cs.len() {
    } else {
        let (r, j) = crate::lexer::lex_step(cs, i);
        match r {
            Err(m) => {},
            Ok(t) => {
                crate::lexer::lemma_step_advances(cs, i);
                let acc2 = match t { Some(x) => acc.push(x), None => acc };
                assert forall|k: int| 0 <= k < acc2.len() implies !(#[trigger] acc2[k] is Eof) by {
                    if k < acc.len() {
                        assert(acc2[k] == acc[k]);
                    } else {
                        crate::lexer::lemma_step_not_eof(cs, i);
                    }
                }
                lemma_lex_from_ends_with_eof(cs, j, acc2);
            },
        }
    }
}

/// Parses source text into a program: its imports and its functions.
pub fn parse_program(source: &str) -> (res: Result<Program, String>)
    ensures
        match parsed_program(source@) {
            Ok(pm) => res is Ok && res->Ok_0@ == pm,
            Err(m) => res is Err && res->Err_0@ == m,
        },
{
    let tokens = lex(source)?;
    proof {
        lemma_lex_from_ends_with_eof(source@, 0, seq![]);
        assert(tokens@.last()@ == tokens_view(tokens@).last());
    }
    let mut parser = Parser::new(tokens);
    parser.program()
}

/// Parses source text into its functions.
pub fn parse(source: &str) -> (res: Result<Vec<Function>, String>)
    ensures
        match parsed_program(source@) {
            Ok(pm) => res is Ok && functions_model(res->Ok_0@) == pm.functions,
            Err(m) => res is Err && res->Err_0@ == m,
        },
{
    Ok(parse_program(source)?.functions)
}

/// `a op b` with `op` a `*` or `/` reads as `Binary(a, op, b)`, its operands
/// in source order.
pub proof fn law_products_in_order(ts: Seq<Lexeme>, p: int, a: ExprModel, q: int, b: ExprModel, r: int)
    requires
        0 <= p,
        atom_at(ts, p) == Ok::<(ExprModel, int), Seq<char>>((a, q)),
        p < q < ts.len(),
        is_mul_op(ts[q]),
        atom_at(ts, q + 1) == Ok::<(ExprModel, int), Seq<char>>((b, r)),
        q < r < ts.len(),
        !is_mul_op(ts[r]),
    ensures
        mul_at(ts, p) == Ok::<(ExprModel, int), Seq<char>>((ExprModel::Binary(Box::new(a), ts[q], Box::new(b)), r)),
{
    reveal_with_fuel(mul_rest, 3);
}

/// A chain of two such operators groups to the left.
pub proof fn law_products_group_left(
    ts: Seq<Lexeme>,
    p: int,
    a: ExprModel,
    q: int,
    b: ExprModel,
    r: int,
    c: ExprModel,
    u: int,
)
    requires
        0 <= p,
        atom_at(ts, p) == Ok::<(ExprModel, int), Seq<char>>((a, q)),
        p < q < ts.len(),
        is_mul_op(ts[q]),
        atom_at(ts, q + 1) == Ok::<(ExprModel, int), Seq<char>>((b, r)),
        q < r < ts.len(),
        is_mul_op(ts[r]),
        atom_at(ts, r + 1) == Ok::<(ExprModel, int), Seq<char>>((c, u)),
        r < u < ts.len(),
        !is_mul_op(ts[u]),
    ensures
        mul_at(ts, p) == Ok::<(ExprModel, int), Seq<char>>((
            ExprModel::Binary(Box::new(ExprModel::Binary(Box::new(a), ts[q], Box::new(b))), ts[r], Box::new(c)),
            u,
        )),
{
    reveal_with_fuel(mul_rest, 4);
}

/// `a op b` with `op` a `+` or `-` reads as `Binary(a, op, b)`, its operands
/// in source order.
pub proof fn law_sums_in_order(ts: Seq<Lexeme>, p: int, a: ExprModel, q: int, b: ExprModel, r: int)
    requires
        0 <= p,
        mul_at(ts, p) == Ok::<(ExprModel, int), Seq<char>>((a, q)),
        p < q < ts.len(),
        is_add_op(ts[q]),
        mul_at(ts, q + 1) == Ok::<(ExprModel, int), Seq<char>>((b, r)),
        q < r < ts.len(),
        !is_add_op(ts[r]),
    ensures
        add_at(ts, p) == Ok::<(ExprModel, int), Seq<char>>((ExprModel::Binary(Box::new(a), ts[q], Box::new(b)), r)),
{
    reveal_with_fuel(add_rest, 3);
}

/// A chain of two such operators groups to the left.
pub proof fn law_sums_group_left(
    ts: Seq<Lexeme>,
    p: int,
    a: ExprModel,
    q: int,
    b: ExprModel,
    r: int,
    c: ExprModel,
    u: int,
)
    requires
        0 <= p,
        mul_at(ts, p) == Ok::<(ExprModel, int), Seq<char>>((a, q)),
        p < q < ts.len(),
        is_add_op(ts[q]),
        mul_at(ts, q + 1) == Ok::<(ExprModel, int), Seq<char>>((b, r)),
        q < r < ts.len(),
        is_add_op(ts[r]),
        mul_at(ts, r + 1) == Ok::<(ExprModel, int), Seq<char>>((c, u)),
        r < u < ts.len(),
        !is_add_op(ts[u]),
    ensures
        add_at(ts, p) == Ok::<(ExprModel, int), Seq<char>>((
            ExprModel::Binary(Box::new(ExprModel::Binary(Box::new(a), ts[q], Box::new(b))), ts[r], Box::new(c)),
            u,
        )),
{
    reveal_with_fuel(add_rest, 4);
}

/// `a op b` with `op` a comparison reads as `Binary(a, op, b)`, its operands
/// in source order.
pub proof fn law_comparisons_in_order(ts: Seq<Lexeme>, p: int, a: ExprModel, q: int, b: ExprModel, r: int)
    requires
        0 <= p,
        add_at(ts, p) == Ok::<(ExprModel, int), Seq<char>>((a, q)),
        p < q < ts.len(),
        is_compare_op(ts[q]),
        add_at(ts, q + 1) == Ok::<(ExprModel, int), Seq<char>>((b, r)),
        q < r < ts.len(),
        !is_compare_op(ts[r]),
    ensures
        compare_at(ts, p) == Ok::<(ExprModel, int), Seq<char>>((ExprModel::Binary(Box::new(a), ts[q], Box::new(b)), r)),
{
    reveal_with_fuel(compare_rest, 3);
}

/// A chain of two such operators groups to the left.
pub proof fn law_comparisons_group_left(
    ts: Seq<Lexeme>,
    p: int,
    a: ExprModel,
    q: int,
    b: ExprModel,
    r: int,
    c: ExprModel,
    u: int,
)
    requires
        0 <= p,
        add_at(ts, p) == Ok::<(ExprModel, int), Seq<char>>((a, q)),
        p < q < ts.len(),
        is_compare_op(ts[q]),
        add_at(ts, q + 1) == Ok::<(ExprModel, int), Seq<char>>((b, r)),
        q < r < ts.len(),
        is_compare_op(ts[r]),
        add_at(ts, r + 1) == Ok::<(ExprModel, int), Seq<char>>((c, u)),
        r < u < ts.len(),
        !is_compare_op(ts[u]),
    ensures
        compare_at(ts, p) == Ok::<(ExprModel, int), Seq<char>>((
            ExprModel::Binary(Box::new(ExprModel::Binary(Box::new(a), ts[q], Box::new(b))), ts[r], Box::new(c)),
            u,
        )),
{
    reveal_with_fuel(compare_rest, 4);
}

} // verus!
