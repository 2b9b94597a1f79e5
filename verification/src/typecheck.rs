//! S+N++ static type, ownership and definite-assignment checker.
//!
//! Each analysis is stated as spec functions over the program model and
//! the maps that the type checker keeps (variable types, moved flags, assigned
//! names, function signatures); its functions are proved to give
//! exactly their results and error messages.

use vstd::prelude::*;
use crate::ast::{
    exprs_model, functions_model, lemma_exprs_model, lemma_stmts_model, stmts_model, Expr,
    ExprModel, Function, FunctionModel, Stmt, StmtModel, Type,
};
use crate::lexer::{Lexeme, Token};
use crate::table::{distinct_keys, entries_map, key_at, lemma_entry, Table};
use crate::text::{concat, decimal, decimal_string, same_text};

verus! {

/// The name a diagnostic uses for a type.
pub open spec fn type_label(t: Type) -> Seq<char> {
    match t {
        Type::Int => "Int"@,
        Type::Str => "String"@,
        Type::Bool => "Bool"@,
        Type::Unit => "Unit"@,
        Type::Channel => "Channel"@,
        Type::Thread => "Thread"@,
        Type::List => "List"@,
        Type::Dict => "Map"@,
        Type::Ref(_) => "&reference"@,
        Type::MutRef(_) => "&mut reference"@,
        Type::Unknown => "Unknown"@,
    }
}

/// The built-in operations that every program may call.
pub open spec fn is_builtin(n: Seq<char>) -> bool {
    ||| n == "print"@ ||| n == "spawn"@ ||| n == "join"@ ||| n == "channel"@
    ||| n == "send"@ ||| n == "receive"@ ||| n == "str_len"@ ||| n == "str_contains"@
    ||| n == "str_upper"@ ||| n == "str_lower"@ ||| n == "str_trim"@ ||| n == "str_concat"@
    ||| n == "list"@ ||| n == "list_push"@ ||| n == "list_len"@ ||| n == "list_get"@
    ||| n == "list_set"@ ||| n == "list_concat"@ ||| n == "map"@ ||| n == "map_set"@
    ||| n == "map_get"@ ||| n == "map_has"@
}

/// The type a built-in call has.
pub open spec fn builtin_type(n: Seq<char>) -> Type {
    if n == "spawn"@ {
        Type::Thread
    } else if n == "channel"@ {
        Type::Channel
    } else if n == "receive"@ || n == "list_get"@ || n == "map_get"@ {
        Type::Unknown
    } else if n == "str_len"@ || n == "list_len"@ {
        Type::Int
    } else if n == "str_contains"@ || n == "map_has"@ {
        Type::Bool
    } else if n == "str_upper"@ || n == "str_lower"@ || n == "str_trim"@ || n == "str_concat"@ {
        Type::Str
    } else if n == "list"@ || n == "list_push"@ || n == "list_set"@ || n == "list_concat"@ {
        Type::List
    } else if n == "map"@ || n == "map_set"@ {
        Type::Dict
    } else {
        Type::Unit
    }
}

/// The built-ins that only read their arguments.
pub open spec fn is_borrowing_builtin(n: Seq<char>) -> bool {
    ||| n == "print"@ ||| n == "spawn"@ ||| n == "str_len"@ ||| n == "str_contains"@
    ||| n == "str_upper"@ ||| n == "str_lower"@ ||| n == "str_trim"@ ||| n == "str_concat"@
    ||| n == "list"@ ||| n == "list_push"@ ||| n == "list_len"@ ||| n == "list_get"@
    ||| n == "list_set"@ ||| n == "list_concat"@ ||| n == "map"@ ||| n == "map_set"@
    ||| n == "map_get"@ ||| n == "map_has"@
}

/// Function signatures: parameter types and return type by name.
pub type Sigs = Map<Seq<char>, (Seq<Type>, Type)>;

/// Variable types by name.
pub type Env = Map<Seq<char>, Type>;

/// An argument of type `got` may be passed for a parameter of type `p`.
pub open spec fn compatible(p: Type, got: Type) -> bool {
    match p {
        Type::Ref(inner) => got == *inner,
        Type::MutRef(inner) => got == *inner,
        _ => got == p,
    }
}

/// The type of a binary operation on operands of types `l` and `r`.
pub open spec fn binary_type(op: Lexeme, l: Type, r: Type) -> Result<Type, Seq<char>> {
    match op {
        Lexeme::Plus => if l == r && (l == Type::Int || l == Type::Str) {
            Ok(l)
        } else {
            Err("operator + expects two Int values or two String values, got "@ + type_label(l) + " and "@ + type_label(r))
        },
        Lexeme::Minus | Lexeme::Star | Lexeme::Slash => if l == Type::Int && r == Type::Int {
            Ok(Type::Int)
        } else {
            Err("arithmetic operator expects Int, got "@ + type_label(l) + " and "@ + type_label(r))
        },
        Lexeme::EqEq | Lexeme::BangEq => if l == r {
            Ok(Type::Bool)
        } else {
            Err("comparison requires matching types, got "@ + type_label(l) + " and "@ + type_label(r))
        },
        Lexeme::Lt | Lexeme::Lte | Lexeme::Gt | Lexeme::Gte => if l == Type::Int && r == Type::Int {
            Ok(Type::Bool)
        } else {
            Err("ordering comparison expects Int values"@)
        },
        _ => Err("invalid operator"@),
    }
}

/// The type of an expression, or the first error found in it.
pub open spec fn type_of(x: ExprModel, env: Env, sigs: Sigs) -> Result<Type, Seq<char>>
    decreases x,
{
    match x {
        ExprModel::Int(_) => Ok(Type::Int),
        ExprModel::Str(_) => Ok(Type::Str),
        ExprModel::Bool(_) => Ok(Type::Bool),
        ExprModel::Var(n) => if env.contains_key(n) {
            Ok(env[n])
        } else {
            Err("undefined variable `"@ + n + "`"@)
        },
        ExprModel::Call(n, args) => if is_builtin(n) {
            match args_error(args, 0, env, sigs) {
                Some(e) => Err(e),
                None => Ok(builtin_type(n)),
            }
        } else if !sigs.contains_key(n) {
            Err("unknown function `"@ + n + "`"@)
        } else if args.len() != sigs[n].0.len() {
            Err("function `"@ + n + "` expects "@ + decimal(sigs[n].0.len()) + " argument(s), got "@ + decimal(args.len()))
        } else {
            match param_error(n, args, sigs[n].0, 0, env, sigs) {
                Some(e) => Err(e),
                None => Ok(sigs[n].1),
            }
        },
        ExprModel::Binary(a, op, b) => match type_of(*a, env, sigs) {
            Err(e) => Err(e),
            Ok(l) => match type_of(*b, env, sigs) {
                Err(e) => Err(e),
                Ok(r) => binary_type(op, l, r),
            },
        },
    }
}

/// The first error in the arguments from `i` on.
pub open spec fn args_error(args: Seq<ExprModel>, i: int, env: Env, sigs: Sigs) -> Option<Seq<char>>
    decreases args, args.len() - i,
{
    if 0 <= i < args.len() {
        match type_of(args[i], env, sigs) {
            Err(e) => Some(e),
            Ok(_) => args_error(args, i + 1, env, sigs),
        }
    } else {
        None
    }
}

/// The first error in the arguments from `i` on, checked against the parameter types.
pub open spec fn param_error(n: Seq<char>, args: Seq<ExprModel>, params: Seq<Type>, i: int, env: Env, sigs: Sigs) -> Option<Seq<char>>
    decreases args, args.len() - i,
{
    if 0 <= i < args.len() {
        match type_of(args[i], env, sigs) {
            Err(e) => Some(e),
            Ok(got) => if compatible(params[i], got) {
                param_error(n, args, params, i + 1, env, sigs)
            } else {
                Some("function `"@ + n + "` argument "@ + decimal((i + 1) as nat) + " expects "@ + type_label(params[i]) + ", got "@ + type_label(got))
            },
        }
    } else {
        None
    }
}

/// Type-checks statements from `i` on; the variable types afterwards, or the first error.
pub open spec fn check_typed(ss: Seq<StmtModel>, i: int, env: Env, sigs: Sigs, ret: Type) -> Result<Env, Seq<char>>
    decreases ss, ss.len() - i,
{
    if !(0 <= i < ss.len()) {
        Ok(env)
    } else {
        match ss[i] {
            StmtModel::Let(n, e) => match type_of(e, env, sigs) {
                Err(m) => Err(m),
                Ok(t) => check_typed(ss, i + 1, env.insert(n, t), sigs, ret),
            },
            StmtModel::Decl(n, t) => check_typed(ss, i + 1, env.insert(n, t), sigs, ret),
            StmtModel::Assign(n, e) => match type_of(e, env, sigs) {
                Err(m) => Err(m),
                Ok(got) => if !env.contains_key(n) {
                    Err("assignment to undefined variable `"@ + n + "`"@)
                } else if env[n] != got {
                    Err("cannot assign "@ + type_label(got) + " to `"@ + n + "` of type "@ + type_label(env[n]))
                } else {
                    check_typed(ss, i + 1, env, sigs, ret)
                },
            },
            StmtModel::Expr(e) => match type_of(e, env, sigs) {
                Err(m) => Err(m),
                Ok(_) => check_typed(ss, i + 1, env, sigs, ret),
            },
            StmtModel::Return(e) => match type_of(e, env, sigs) {
                Err(m) => Err(m),
                Ok(got) => if ret != Type::Unit && got != ret {
                    Err("return type mismatch: expected "@ + type_label(ret) + ", got "@ + type_label(got))
                } else {
                    check_typed(ss, i + 1, env, sigs, ret)
                },
            },
            StmtModel::If(c, yes, no) => match type_of(c, env, sigs) {
                Err(m) => Err(m),
                Ok(ct) => if ct != Type::Bool {
                    Err("if condition must be Bool"@)
                } else {
                    match check_typed(yes, 0, env, sigs, ret) {
                        Err(m) => Err(m),
                        Ok(_) => match check_typed(no, 0, env, sigs, ret) {
                            Err(m) => Err(m),
                            Ok(_) => check_typed(ss, i + 1, env, sigs, ret),
                        },
                    }
                },
            },
            StmtModel::While(c, body) => match type_of(c, env, sigs) {
                Err(m) => Err(m),
                Ok(ct) => if ct != Type::Bool {
                    Err("while condition must be Bool"@)
                } else {
                    match check_typed(body, 0, env, sigs, ret) {
                        Err(m) => Err(m),
                        Ok(_) => check_typed(ss, i + 1, env, sigs, ret),
                    }
                },
            },
        }
    }
}

/// Values of these types are copied, not moved.
pub open spec fn copyable(t: Type) -> bool {
    t is Int || t is Bool || t is Unit || t is Channel || t is Thread || t is Ref || t is MutRef
}

/// Whether a call takes its argument at index `i` by reference: a reading
/// built-in takes every argument so; a declared function takes so those whose
/// parameter is a reference.
pub open spec fn borrows_arg(n: Seq<char>, i: int, sigs: Sigs) -> bool {
    if is_borrowing_builtin(n) {
        true
    } else {
        sigs.contains_key(n) && 0 <= i < sigs[n].0.len() && (sigs[n].0[i] is Ref || sigs[n].0[i] is MutRef)
    }
}

pub open spec fn type_or_unknown(env: Env, n: Seq<char>) -> Type {
    if env.contains_key(n) { env[n] } else { Type::Unknown }
}

/// The moved flags after evaluating an expression, or the first use of a moved value.
pub open spec fn own_expr(x: ExprModel, env: Env, moved: Map<Seq<char>, bool>, move_value: bool, sigs: Sigs) -> Result<Map<Seq<char>, bool>, Seq<char>>
    decreases x,
{
    match x {
        ExprModel::Var(n) => if moved.contains_key(n) && moved[n] {
            Err("use of moved value `"@ + n + "`; use `.clone()` before moving it again"@)
        } else if move_value && !copyable(type_or_unknown(env, n)) {
            Ok(moved.insert(n, true))
        } else {
            Ok(moved)
        },
        ExprModel::Binary(a, _, b) => match own_expr(*a, env, moved, false, sigs) {
            Err(e) => Err(e),
            Ok(m) => own_expr(*b, env, m, false, sigs),
        },
        ExprModel::Call(n, args) => own_args(args, 0, env, moved, n, sigs),
        _ => Ok(moved),
    }
}

/// The arguments of a call to `n` from `i` on: each one given to a by-value
/// parameter is moved.
pub open spec fn own_args(args: Seq<ExprModel>, i: int, env: Env, moved: Map<Seq<char>, bool>, n: Seq<char>, sigs: Sigs) -> Result<Map<Seq<char>, bool>, Seq<char>>
    decreases args, args.len() - i,
{
    if 0 <= i < args.len() {
        match own_expr(args[i], env, moved, !borrows_arg(n, i, sigs), sigs) {
            Err(e) => Err(e),
            Ok(m) => own_args(args, i + 1, env, m, n, sigs),
        }
    } else {
        Ok(moved)
    }
}

/// The type a `let` records for later checks, which see no function signatures.
pub open spec fn plain_type(e: ExprModel, env: Env) -> Type {
    match type_of(e, env, Map::empty()) {
        Ok(t) => t,
        Err(_) => Type::Unknown,
    }
}

/// A name moved on either branch is moved after the branches join.
pub open spec fn join_moved(m: Map<Seq<char>, bool>, a: Map<Seq<char>, bool>, b: Map<Seq<char>, bool>) -> Map<Seq<char>, bool> {
    Map::new(
        |k: Seq<char>| m.contains_key(k) || (a.contains_key(k) && a[k]) || (b.contains_key(k) && b[k]),
        |k: Seq<char>| if (a.contains_key(k) && a[k]) || (b.contains_key(k) && b[k]) { true } else { m[k] },
    )
}

/// Ownership analysis of statements from `i` on: the variable types and moved
/// flags afterwards, or the first use of a moved value.
pub open spec fn own_stmts(ss: Seq<StmtModel>, i: int, env: Env, moved: Map<Seq<char>, bool>, sigs: Sigs) -> Result<(Env, Map<Seq<char>, bool>), Seq<char>>
    decreases ss, ss.len() - i,
{
    if !(0 <= i < ss.len()) {
        Ok((env, moved))
    } else {
        match ss[i] {
            StmtModel::Let(n, e) => match own_expr(e, env, moved, e is Var, sigs) {
                Err(m) => Err(m),
                Ok(m1) => own_stmts(ss, i + 1, env.insert(n, plain_type(e, env)), m1.insert(n, false), sigs),
            },
            StmtModel::Assign(n, e) => match own_expr(e, env, moved, e is Var, sigs) {
                Err(m) => Err(m),
                Ok(m1) => if !env.contains_key(n) {
                    Err("assignment to undefined variable `"@ + n + "`"@)
                } else {
                    own_stmts(ss, i + 1, env, m1.insert(n, false), sigs)
                },
            },
            StmtModel::Decl(n, t) => own_stmts(ss, i + 1, env.insert(n, t), moved.insert(n, false), sigs),
            StmtModel::Expr(e) => match own_expr(e, env, moved, false, sigs) {
                Err(m) => Err(m),
                Ok(m1) => own_stmts(ss, i + 1, env, m1, sigs),
            },
            StmtModel::Return(e) => match own_expr(e, env, moved, false, sigs) {
                Err(m) => Err(m),
                Ok(m1) => own_stmts(ss, i + 1, env, m1, sigs),
            },
            StmtModel::If(c, yes, no) => match own_expr(c, env, moved, false, sigs) {
                Err(m) => Err(m),
                Ok(m1) => match own_stmts(yes, 0, env, m1, sigs) {
                    Err(m) => Err(m),
                    Ok((env2, a)) => match own_stmts(no, 0, env2, m1, sigs) {
                        Err(m) => Err(m),
                        Ok((env3, b)) => own_stmts(ss, i + 1, env3, join_moved(m1, a, b), sigs),
                    },
                },
            },
            StmtModel::While(c, body) => match own_expr(c, env, moved, false, sigs) {
                Err(m) => Err(m),
                Ok(m1) => match own_stmts(body, 0, env, m1, sigs) {
                    Err(m) => Err(m),
                    Ok((env2, a)) => own_stmts(ss, i + 1, env2, mark_moved(m1, a), sigs),
                },
            },
        }
    }
}

/// The first use of an undeclared or unassigned variable in an expression.
pub open spec fn def_expr(x: ExprModel, types: Env, assigned: Set<Seq<char>>) -> Option<Seq<char>>
    decreases x,
{
    match x {
        ExprModel::Var(n) => if !types.contains_key(n) {
            Some("undefined variable `"@ + n + "`"@)
        } else if !assigned.contains(n) {
            Some("use of uninitialized variable `"@ + n + "`"@)
        } else {
            None
        },
        ExprModel::Binary(a, _, b) => match def_expr(*a, types, assigned) {
            Some(e) => Some(e),
            None => def_expr(*b, types, assigned),
        },
        ExprModel::Call(_, args) => def_args(args, 0, types, assigned),
        _ => None,
    }
}

pub open spec fn def_args(args: Seq<ExprModel>, i: int, types: Env, assigned: Set<Seq<char>>) -> Option<Seq<char>>
    decreases args, args.len() - i,
{
    if 0 <= i < args.len() {
        match def_expr(args[i], types, assigned) {
            Some(e) => Some(e),
            None => def_args(args, i + 1, types, assigned),
        }
    } else {
        None
    }
}

/// Definite-assignment analysis of statements from `i` on: the declared types
/// and the definitely assigned names afterwards, or the first error.  After an
/// `if` only names assigned on both branches are assigned; a loop body's
/// assignments do not count after the loop.
pub open spec fn def_stmts(ss: Seq<StmtModel>, i: int, types: Env, assigned: Set<Seq<char>>) -> Result<(Env, Set<Seq<char>>), Seq<char>>
    decreases ss, ss.len() - i,
{
    if !(0 <= i < ss.len()) {
        Ok((types, assigned))
    } else {
        match ss[i] {
            StmtModel::Decl(n, t) => def_stmts(ss, i + 1, types.insert(n, t), assigned.remove(n)),
            StmtModel::Let(n, e) => match def_expr(e, types, assigned) {
                Some(m) => Err(m),
                None => def_stmts(ss, i + 1, types.insert(n, plain_type(e, types)), assigned.insert(n)),
            },
            StmtModel::Assign(n, e) => if !types.contains_key(n) {
                Err("assignment to undefined variable `"@ + n + "`"@)
            } else {
                match def_expr(e, types, assigned) {
                    Some(m) => Err(m),
                    None => def_stmts(ss, i + 1, types, assigned.insert(n)),
                }
            },
            StmtModel::Expr(e) => match def_expr(e, types, assigned) {
                Some(m) => Err(m),
                None => def_stmts(ss, i + 1, types, assigned),
            },
            StmtModel::Return(e) => match def_expr(e, types, assigned) {
                Some(m) => Err(m),
                None => def_stmts(ss, i + 1, types, assigned),
            },
            StmtModel::If(c, yes, no) => match def_expr(c, types, assigned) {
                Some(m) => Err(m),
                None => match def_stmts(yes, 0, types, assigned) {
                    Err(m) => Err(m),
                    Ok((t2, a)) => match def_stmts(no, 0, t2, assigned) {
                        Err(m) => Err(m),
                        Ok((t3, b)) => def_stmts(ss, i + 1, t3, a.intersect(b)),
                    },
                },
            },
            StmtModel::While(c, body) => match def_expr(c, types, assigned) {
                Some(m) => Err(m),
                None => match def_stmts(body, 0, types, assigned) {
                    Err(m) => Err(m),
                    Ok((t2, _)) => def_stmts(ss, i + 1, t2, assigned),
                },
            },
        }
    }
}

/// The first function, from `i` on, whose name was already used.
pub open spec fn duplicate_from(fs: Seq<FunctionModel>, i: int, seen: Set<Seq<char>>) -> Option<Seq<char>>
    decreases fs.len() - i,
{
    if !(0 <= i < fs.len()) {
        None
    } else if seen.contains(fs[i].name) {
        Some("duplicate function `"@ + fs[i].name + "`"@)
    } else {
        duplicate_from(fs, i + 1, seen.insert(fs[i].name))
    }
}

/// The signatures of the first `n` functions.
pub open spec fn signatures(fs: Seq<FunctionModel>, n: int) -> Sigs
    decreases n,
{
    if n <= 0 || n > fs.len() {
        Map::empty()
    } else {
        signatures(fs, n - 1).insert(fs[n - 1].name, (fs[n - 1].param_types, fs[n - 1].return_type))
    }
}

/// The parameters' types of a function, as its body starts.
pub open spec fn param_env(f: FunctionModel, n: int) -> Env
    decreases n,
{
    if n <= 0 || n > f.params.len() {
        Map::empty()
    } else {
        param_env(f, n - 1).insert(
            f.params[n - 1],
            if n - 1 < f.param_types.len() { f.param_types[n - 1] } else { Type::Unknown },
        )
    }
}

/// The parameters' names.
pub open spec fn param_names(f: FunctionModel, n: int) -> Set<Seq<char>>
    decreases n,
{
    if n <= 0 || n > f.params.len() {
        Set::empty()
    } else {
        param_names(f, n - 1).insert(f.params[n - 1])
    }
}

/// All three analyses of one function body, in order.
pub open spec fn check_function(f: FunctionModel, sigs: Sigs) -> Result<(), Seq<char>> {
    let env0 = param_env(f, f.params.len() as int);
    match check_typed(f.body, 0, env0, sigs, f.return_type) {
        Err(m) => Err(m),
        Ok(env1) => match def_stmts(f.body, 0, env0, param_names(f, f.params.len() as int)) {
            Err(m) => Err(m),
            Ok(_) => match own_stmts(f.body, 0, env1, Map::empty(), sigs) {
                Err(m) => Err(m),
                Ok(_) => Ok(()),
            },
        },
    }
}

pub open spec fn check_functions(fs: Seq<FunctionModel>, i: int, sigs: Sigs) -> Result<(), Seq<char>>
    decreases fs.len() - i,
{
    if !(0 <= i < fs.len()) {
        Ok(())
    } else {
        match check_function(fs[i], sigs) {
            Err(m) => Err(m),
            Ok(_) => check_functions(fs, i + 1, sigs),
        }
    }
}

/// The type checker's verdict on a program's functions.
pub open spec fn check_program(fs: Seq<FunctionModel>) -> Result<(), Seq<char>> {
    match duplicate_from(fs, 0, Set::empty()) {
        Some(m) => Err(m),
        None => if !(exists|i: int| 0 <= i < fs.len() && fs[i].name == "main"@) {
            Err("program must define fn main()"@)
        } else {
            check_functions(fs, 0, signatures(fs, fs.len() as int))
        },
    }
}


/// A result that agrees with its specification: the same value, or the same message.
pub open spec fn agrees<T>(res: Result<T, String>, spec: Result<T, Seq<char>>) -> bool {
    match spec {
        Ok(v) => res is Ok && res->Ok_0 == v,
        Err(m) => res is Err && res->Err_0@ == m,
    }
}

/// Signatures kept as indices into the function list.
pub open spec fn sig_view(t: Map<Seq<char>, usize>, fs: Seq<FunctionModel>) -> Sigs {
    Map::new(
        |n: Seq<char>| t.contains_key(n),
        |n: Seq<char>| (fs[t[n] as int].param_types, fs[t[n] as int].return_type),
    )
}

pub open spec fn sigs_in_range(t: Map<Seq<char>, usize>, n: int) -> bool {
    forall|k: Seq<char>| #[trigger] t.contains_key(k) ==> t[k] < n
}

fn label_of(t: &Type) -> (r: &'static str)
    ensures
        r@ == type_label(*t),
{
    match t {
        Type::Int => "Int",
        Type::Str => "String",
        Type::Bool => "Bool",
        Type::Unit => "Unit",
        Type::Channel => "Channel",
        Type::Thread => "Thread",
        Type::List => "List",
        Type::Dict => "Map",
        Type::Ref(_) => "&reference",
        Type::MutRef(_) => "&mut reference",
        Type::Unknown => "Unknown",
    }
}

fn builtin(n: &str) -> (r: bool)
    ensures
        r == is_builtin(n@),
{
    same_text(n, "print") || same_text(n, "spawn") || same_text(n, "join") || same_text(n, "channel")
        || same_text(n, "send") || same_text(n, "receive") || same_text(n, "str_len")
        || same_text(n, "str_contains") || same_text(n, "str_upper") || same_text(n, "str_lower")
        || same_text(n, "str_trim") || same_text(n, "str_concat") || same_text(n, "list")
        || same_text(n, "list_push") || same_text(n, "list_len") || same_text(n, "list_get")
        || same_text(n, "list_set") || same_text(n, "list_concat") || same_text(n, "map")
        || same_text(n, "map_set") || same_text(n, "map_get") || same_text(n, "map_has")
}

fn borrowing_builtin(n: &str) -> (r: bool)
    ensures
        r == is_borrowing_builtin(n@),
{
    same_text(n, "print") || same_text(n, "spawn") || same_text(n, "str_len")
        || same_text(n, "str_contains") || same_text(n, "str_upper") || same_text(n, "str_lower")
        || same_text(n, "str_trim") || same_text(n, "str_concat") || same_text(n, "list")
        || same_text(n, "list_push") || same_text(n, "list_len") || same_text(n, "list_get")
        || same_text(n, "list_set") || same_text(n, "list_concat") || same_text(n, "map")
        || same_text(n, "map_set") || same_text(n, "map_get") || same_text(n, "map_has")
}

fn builtin_result(n: &str) -> (t: Type)
    ensures
        t == builtin_type(n@),
{
    if same_text(n, "spawn") {
        Type::Thread
    } else if same_text(n, "channel") {
        Type::Channel
    } else if same_text(n, "receive") || same_text(n, "list_get") || same_text(n, "map_get") {
        Type::Unknown
    } else if same_text(n, "str_len") || same_text(n, "list_len") {
        Type::Int
    } else if same_text(n, "str_contains") || same_text(n, "map_has") {
        Type::Bool
    } else if same_text(n, "str_upper") || same_text(n, "str_lower") || same_text(n, "str_trim")
        || same_text(n, "str_concat") {
        Type::Str
    } else if same_text(n, "list") || same_text(n, "list_push") || same_text(n, "list_set")
        || same_text(n, "list_concat") {
        Type::List
    } else if same_text(n, "map") || same_text(n, "map_set") {
        Type::Dict
    } else {
        Type::Unit
    }
}

/// `a` + `b` + `c` as one string.
fn join3(a: &str, b: &str, c: &str) -> (r: String)
    ensures
        r@ == a@ + b@ + c@,
{
    let mut r = concat(a, b);
    r.append(c);
    r
}

/// The message for an operand-type error of a binary operator.
fn operands_message(prefix: &str, l: &Type, r: &Type) -> (m: String)
    ensures
        m@ == prefix@ + type_label(*l) + " and "@ + type_label(*r),
{
    let mut m = concat(prefix, label_of(l));
    m.append(" and ");
    m.append(label_of(r));
    m
}

fn binary_result(op: &Token, l: Type, r: Type) -> (res: Result<Type, String>)
    ensures
        agrees(res, binary_type(op@, l, r)),
{
    match op {
        Token::Plus => if l.same(&r) && (l.same(&Type::Int) || l.same(&Type::Str)) {
            Ok(l)
        } else {
            Err(operands_message("operator + expects two Int values or two String values, got ", &l, &r))
        },
        Token::Minus | Token::Star | Token::Slash => if l.same(&Type::Int) && r.same(&Type::Int) {
            Ok(Type::Int)
        } else {
            Err(operands_message("arithmetic operator expects Int, got ", &l, &r))
        },
        Token::EqEq | Token::BangEq => if l.same(&r) {
            Ok(Type::Bool)
        } else {
            Err(operands_message("comparison requires matching types, got ", &l, &r))
        },
        Token::Lt | Token::Lte | Token::Gt | Token::Gte => if l.same(&Type::Int) && r.same(&Type::Int) {
            Ok(Type::Bool)
        } else {
            Err(String::from_str("ordering comparison expects Int values"))
        },
        _ => Err(String::from_str("invalid operator")),
    }
}

fn expr_type(x: &Expr, env: &Table<Type>, sigs: &Table<usize>, fns: &[Function]) -> (res: Result<Type, String>)
    requires
        sigs_in_range(sigs@, fns@.len() as int),
    ensures
        agrees(res, type_of(x@, env@, sig_view(sigs@, functions_model(fns@)))),
    decreases x,
{
    let ghost sg = sig_view(sigs@, functions_model(fns@));
    match x {
        Expr::Int(_) => Ok(Type::Int),
        Expr::Str(_) => Ok(Type::Str),
        Expr::Bool(_) => Ok(Type::Bool),
        Expr::Var(n) => match env.get(n.as_str()) {
            Some(t) => Ok(t.duplicate()),
            None => Err(join3("undefined variable `", n.as_str(), "`")),
        },
        Expr::Call(n, args) => {
            let ghost am = exprs_model(args@);
            proof {
                lemma_exprs_model(args@);
            }
            assert(x@ == ExprModel::Call(n@, am));
            if builtin(n.as_str()) {
                let mut i: usize = 0;
                while i < args.len()
                    invariant
                        i <= args.len(),
                        *x == Expr::Call(*n, *args),
                        am == exprs_model(args@),
                        am.len() == args@.len(),
                        forall|k: int| 0 <= k < args@.len() ==> #[trigger] am[k] == args@[k]@,
                        sigs_in_range(sigs@, fns@.len() as int),
                        sg == sig_view(sigs@, functions_model(fns@)),
                        x@ == ExprModel::Call(n@, am),
                        is_builtin(n@),
                        args_error(am, i as int, env@, sg) == args_error(am, 0, env@, sg),
                    decreases args.len() - i,
                {
                    proof {
                        assert(decreases_to!(*x => (*x)->Call_1));
                        assert(decreases_to!((*x)->Call_1 => (*x)->Call_1@));
                        assert(decreases_to!((*x)->Call_1@ => args@[i as int]));
                    }
                    expr_type(&args[i], env, sigs, fns)?;
                    i += 1;
                }
                return Ok(builtin_result(n.as_str()));
            }
            let idx: usize = match sigs.get(n.as_str()) {
                Some(k) => *k,
                None => {
                    return Err(join3("unknown function `", n.as_str(), "`"));
                },
            };
            let f = &fns[idx];
            assert(sg[n@] == (f.param_types@, f.return_type));
            if args.len() != f.param_types.len() {
                let mut m = join3("function `", n.as_str(), "` expects ");
                m.append(decimal_string(f.param_types.len() as u64).as_str());
                m.append(" argument(s), got ");
                m.append(decimal_string(args.len() as u64).as_str());
                return Err(m);
            }
            let mut i: usize = 0;
            while i < args.len()
                invariant
                    i <= args.len(),
                    *x == Expr::Call(*n, *args),
                    am == exprs_model(args@),
                    am.len() == args@.len(),
                    forall|k: int| 0 <= k < args@.len() ==> #[trigger] am[k] == args@[k]@,
                    sigs_in_range(sigs@, fns@.len() as int),
                    sg == sig_view(sigs@, functions_model(fns@)),
                    x@ == ExprModel::Call(n@, am),
                    !is_builtin(n@),
                    sg.contains_key(n@),
                    f.param_types@ == sg[n@].0,
                    f.return_type == sg[n@].1,
                    args@.len() == f.param_types@.len(),
                    param_error(n@, am, sg[n@].0, i as int, env@, sg) == param_error(n@, am, sg[n@].0, 0, env@, sg),
                decreases args.len() - i,
            {
                proof {
                    assert(decreases_to!(*x => (*x)->Call_1));
                    assert(decreases_to!((*x)->Call_1 => (*x)->Call_1@));
                    assert(decreases_to!((*x)->Call_1@ => args@[i as int]));
                }
                let got = expr_type(&args[i], env, sigs, fns)?;
                let p = &f.param_types[i];
                let ok = match p {
                    Type::Ref(inner) => got.same(&**inner),
                    Type::MutRef(inner) => got.same(&**inner),
                    _ => got.same(p),
                };
                if !ok {
                    let mut m = join3("function `", n.as_str(), "` argument ");
                    m.append(decimal_string(i as u64 + 1).as_str());
                    m.append(" expects ");
                    m.append(label_of(p));
                    m.append(", got ");
                    m.append(label_of(&got));
                    return Err(m);
                }
                i += 1;
            }
            Ok(f.return_type.duplicate())
        },
        Expr::Binary(a, op, b) => {
            let l = expr_type(&**a, env, sigs, fns)?;
            let r = expr_type(&**b, env, sigs, fns)?;
            binary_result(op, l, r)
        },
    }
}


/// The outcome of type-checking statements: the variable types afterwards, or the message.
pub open spec fn typed_outcome(res: Result<(), String>, env_after: Env, spec: Result<Env, Seq<char>>) -> bool {
    match spec {
        Ok(e) => res is Ok && env_after == e,
        Err(m) => res is Err && res->Err_0@ == m,
    }
}

fn check_typed_stmts(xs: &Vec<Stmt>, env: &mut Table<Type>, sigs: &Table<usize>, fns: &[Function], ret: &Type) -> (res: Result<(), String>)
    requires
        sigs_in_range(sigs@, fns@.len() as int),
    ensures
        typed_outcome(res, final(env)@, check_typed(stmts_model(xs@), 0, old(env)@, sig_view(sigs@, functions_model(fns@)), *ret)),
    decreases xs@,
{
    let ghost sg = sig_view(sigs@, functions_model(fns@));
    let ghost ss = stmts_model(xs@);
    proof {
        lemma_stmts_model(xs@);
    }
    let mut i: usize = 0;
    while i < xs.len()
        invariant
            i <= xs.len(),
            ss == stmts_model(xs@),
            ss.len() == xs@.len(),
            forall|k: int| 0 <= k < xs@.len() ==> #[trigger] ss[k] == xs@[k]@,
            sigs_in_range(sigs@, fns@.len() as int),
            sg == sig_view(sigs@, functions_model(fns@)),
            check_typed(ss, i as int, env@, sg, *ret) == check_typed(ss, 0, old(env)@, sg, *ret),
        decreases xs.len() - i,
    {
        let ghost e0 = env@;
        match &xs[i] {
            Stmt::Let(name, expr) => {
                let ty = expr_type(expr, env, sigs, fns)?;
                env.insert(name.clone(), ty);
            },
            Stmt::Decl(name, ty) => {
                env.insert(name.clone(), ty.duplicate());
            },
            Stmt::Assign(name, expr) => {
                let got = expr_type(expr, env, sigs, fns)?;
                match env.get(name.as_str()) {
                    None => {
                        return Err(join3("assignment to undefined variable `", name.as_str(), "`"));
                    },
                    Some(old) => {
                        if !old.same(&got) {
                            let mut m = concat("cannot assign ", label_of(&got));
                            m.append(" to `");
                            m.append(name.as_str());
                            m.append("` of type ");
                            m.append(label_of(old));
                            return Err(m);
                        }
                    },
                }
            },
            Stmt::Expr(expr) => {
                expr_type(expr, env, sigs, fns)?;
            },
            Stmt::Return(expr) => {
                let got = expr_type(expr, env, sigs, fns)?;
                if !ret.same(&Type::Unit) && !got.same(ret) {
                    let mut m = concat("return type mismatch: expected ", label_of(ret));
                    m.append(", got ");
                    m.append(label_of(&got));
                    return Err(m);
                }
            },
            Stmt::If(condition, yes, no) => {
                let ct = expr_type(condition, env, sigs, fns)?;
                if !ct.same(&Type::Bool) {
                    return Err(String::from_str("if condition must be Bool"));
                }
                proof {
                    assert(decreases_to!(xs@ => xs@[i as int]));
                    assert(decreases_to!(xs@[i as int] => xs@[i as int]->If_1));
                    assert(decreases_to!(xs@[i as int] => xs@[i as int]->If_2));
                    assert(decreases_to!(xs@[i as int]->If_1 => xs@[i as int]->If_1@));
                    assert(decreases_to!(xs@[i as int]->If_2 => xs@[i as int]->If_2@));
                }
                let mut inner = env.duplicate();
                check_typed_stmts(yes, &mut inner, sigs, fns, ret)?;
                let mut inner = env.duplicate();
                check_typed_stmts(no, &mut inner, sigs, fns, ret)?;
            },
            Stmt::While(condition, body) => {
                let ct = expr_type(condition, env, sigs, fns)?;
                if !ct.same(&Type::Bool) {
                    return Err(String::from_str("while condition must be Bool"));
                }
                proof {
                    assert(decreases_to!(xs@ => xs@[i as int]));
                    assert(decreases_to!(xs@[i as int] => xs@[i as int]->While_1));
                    assert(decreases_to!(xs@[i as int]->While_1 => xs@[i as int]->While_1@));
                }
                let mut inner = env.duplicate();
                check_typed_stmts(body, &mut inner, sigs, fns, ret)?;
            },
        }
        i += 1;
    }
    Ok(())
}


/// `m` with every name that `a` flags as moved flagged as moved.
pub open spec fn mark_moved(m: Map<Seq<char>, bool>, a: Map<Seq<char>, bool>) -> Map<Seq<char>, bool> {
    Map::new(
        |k: Seq<char>| m.contains_key(k) || (a.contains_key(k) && a[k]),
        |k: Seq<char>| if a.contains_key(k) && a[k] { true } else { m[k] },
    )
}

pub open spec fn flagged_before(s: Seq<(String, bool)>, k: Seq<char>, j: int) -> bool {
    exists|t: int| 0 <= t < j && key_at(s, k, t) && s[t].1
}

pub open spec fn marked_prefix(m: Map<Seq<char>, bool>, s: Seq<(String, bool)>, j: int) -> Map<Seq<char>, bool> {
    Map::new(
        |k: Seq<char>| m.contains_key(k) || flagged_before(s, k, j),
        |k: Seq<char>| if flagged_before(s, k, j) { true } else { m[k] },
    )
}

proof fn lemma_join_moved(m: Map<Seq<char>, bool>, a: Map<Seq<char>, bool>, b: Map<Seq<char>, bool>)
    ensures
        join_moved(m, a, b) == mark_moved(mark_moved(m, a), b),
{
    assert(join_moved(m, a, b) =~= mark_moved(mark_moved(m, a), b));
}

/// Flags in `moved` every name that `from` flags.
fn mark_from(moved: &mut Table<bool>, from: &Table<bool>)
    ensures
        final(moved)@ == mark_moved(old(moved)@, from@),
{
    let ghost m0 = moved@;
    let n = from.len();
    let ghost fe = from.entries();
    assert(moved@ =~= marked_prefix(m0, fe, 0));
    let mut j: usize = 0;
    while j < n
        invariant
            j <= n,
            n == fe.len(),
            fe == from.entries(),
            distinct_keys(fe),
            from@ == entries_map(fe),
            moved@ == marked_prefix(m0, fe, j as int),
        decreases n - j,
    {
        let e = from.entry(j);
        let ghost before = moved@;
        if e.1 {
            moved.insert(e.0.clone(), true);
            let ghost kj = fe[j as int].0@;
            assert(moved@ == before.insert(kj, true));
            assert forall|k: Seq<char>| #[trigger] flagged_before(fe, k, j + 1) <==> (flagged_before(fe, k, j as int) || k == kj) by {
                if k == kj {
                    assert(key_at(fe, k, j as int));
                }
                if flagged_before(fe, k, j + 1) && k != kj {
                    let t = choose|t: int| 0 <= t < j + 1 && key_at(fe, k, t) && fe[t].1;
                    assert(t < j);
                }
                if flagged_before(fe, k, j as int) {
                    let t = choose|t: int| 0 <= t < j && key_at(fe, k, t) && fe[t].1;
                    assert(0 <= t < j + 1 && key_at(fe, k, t) && fe[t].1);
                }
            }
            assert(moved@ =~= marked_prefix(m0, fe, j + 1)) by {
                assert forall|k: Seq<char>| #[trigger] moved@.contains_key(k) <==> marked_prefix(m0, fe, j + 1).contains_key(k) by {
                    assert(flagged_before(fe, k, j + 1) <==> (flagged_before(fe, k, j as int) || k == kj));
                }
                assert forall|k: Seq<char>| #[trigger] moved@.contains_key(k) implies moved@[k] == marked_prefix(m0, fe, j + 1)[k] by {
                    assert(flagged_before(fe, k, j + 1) <==> (flagged_before(fe, k, j as int) || k == kj));
                }
            }
        } else {
            assert(moved@ =~= marked_prefix(m0, fe, j + 1)) by {
                assert forall|k: Seq<char>| flagged_before(fe, k, j + 1) <==> flagged_before(fe, k, j as int) by {
                    if flagged_before(fe, k, j + 1) {
                        let t = choose|t: int| 0 <= t < j + 1 && key_at(fe, k, t) && fe[t].1;
                        assert(t < j);
                    }
                }
            }
        }
        j += 1;
    }
    assert(moved@ =~= mark_moved(m0, from@)) by {
        assert forall|k: Seq<char>| flagged_before(fe, k, n as int) <==> (from@.contains_key(k) && from@[k]) by {
            if flagged_before(fe, k, n as int) {
                let t = choose|t: int| 0 <= t < n && key_at(fe, k, t) && fe[t].1;
                lemma_entry(fe, t);
            }
            if from@.contains_key(k) && from@[k] {
                let t = choose|t: int| key_at(fe, k, t);
                lemma_entry(fe, t);
            }
        }
    }
}

fn copyable_type(t: &Type) -> (r: bool)
    ensures
        r == copyable(*t),
{
    matches!(t, Type::Int | Type::Bool | Type::Unit | Type::Channel | Type::Thread | Type::Ref(_) | Type::MutRef(_))
}

/// Whether a call to `name` takes its argument at index `i` by reference.
fn takes_by_reference(name: &str, i: usize, sigs: &Table<usize>, fns: &[Function]) -> (r: bool)
    requires
        sigs_in_range(sigs@, fns@.len() as int),
    ensures
        r == borrows_arg(name@, i as int, sig_view(sigs@, functions_model(fns@))),
{
    let ghost sg = sig_view(sigs@, functions_model(fns@));
    if borrowing_builtin(name) {
        true
    } else {
        match sigs.get(name) {
            Some(k) => {
                let ps = &fns[*k].param_types;
                assert(sg[name@].0 == ps@);
                i < ps.len() && matches!(ps[i], Type::Ref(_) | Type::MutRef(_))
            },
            None => false,
        }
    }
}

fn ownership_expr(x: &Expr, env: &Table<Type>, moved: &mut Table<bool>, move_value: bool, sigs: &Table<usize>, fns: &[Function]) -> (res: Result<(), String>)
    requires
        sigs_in_range(sigs@, fns@.len() as int),
    ensures
        match own_expr(x@, env@, old(moved)@, move_value, sig_view(sigs@, functions_model(fns@))) {
            Ok(m) => res is Ok && final(moved)@ == m,
            Err(e) => res is Err && res->Err_0@ == e,
        },
    decreases x,
{
    let ghost sg = sig_view(sigs@, functions_model(fns@));
    match x {
        Expr::Var(name) => {
            let is_moved = match moved.get(name.as_str()) {
                Some(b) => *b,
                None => false,
            };
            if is_moved {
                return Err(join3("use of moved value `", name.as_str(), "`; use `.clone()` before moving it again"));
            }
            if move_value {
                let copies = match env.get(name.as_str()) {
                    Some(t) => copyable_type(t),
                    None => copyable_type(&Type::Unknown),
                };
                if !copies {
                    moved.insert(name.clone(), true);
                }
            }
            Ok(())
        },
        Expr::Binary(a, _, b) => {
            ownership_expr(&**a, env, moved, false, sigs, fns)?;
            ownership_expr(&**b, env, moved, false, sigs, fns)
        },
        Expr::Call(name, args) => {
            let ghost am = exprs_model(args@);
            proof {
                lemma_exprs_model(args@);
            }
            assert(x@ == ExprModel::Call(name@, am));
            let ghost m0 = moved@;
            let mut i: usize = 0;
            while i < args.len()
                invariant
                    i <= args.len(),
                    *x == Expr::Call(*name, *args),
                    am == exprs_model(args@),
                    am.len() == args@.len(),
                    forall|k: int| 0 <= k < args@.len() ==> #[trigger] am[k] == args@[k]@,
                    sigs_in_range(sigs@, fns@.len() as int),
                    sg == sig_view(sigs@, functions_model(fns@)),
                    x@ == ExprModel::Call(name@, am),
                    m0 == old(moved)@,
                    own_args(am, i as int, env@, moved@, name@, sg) == own_args(am, 0, env@, m0, name@, sg),
                decreases args.len() - i,
            {
                proof {
                    assert(decreases_to!(*x => (*x)->Call_1));
                    assert(decreases_to!((*x)->Call_1 => (*x)->Call_1@));
                    assert(decreases_to!((*x)->Call_1@ => args@[i as int]));
                }
                let borrow = takes_by_reference(name.as_str(), i, sigs, fns);
                ownership_expr(&args[i], env, moved, !borrow, sigs, fns)?;
                i += 1;
            }
            Ok(())
        },
        _ => Ok(()),
    }
}

fn ownership_stmts(xs: &Vec<Stmt>, env: &mut Table<Type>, moved: &mut Table<bool>, sigs: &Table<usize>, fns: &[Function]) -> (res: Result<(), String>)
    requires
        sigs_in_range(sigs@, fns@.len() as int),
    ensures
        match own_stmts(stmts_model(xs@), 0, old(env)@, old(moved)@, sig_view(sigs@, functions_model(fns@))) {
            Ok((e, m)) => res is Ok && final(env)@ == e && final(moved)@ == m,
            Err(msg) => res is Err && res->Err_0@ == msg,
        },
    decreases xs@,
{
    let ghost sg = sig_view(sigs@, functions_model(fns@));
    let ghost ss = stmts_model(xs@);
    proof {
        lemma_stmts_model(xs@);
    }
    let no_sigs: Table<usize> = Table::new();
    assert(sig_view(no_sigs@, functions_model(fns@)) =~= Map::empty());
    let mut i: usize = 0;
    while i < xs.len()
        invariant
            i <= xs.len(),
            ss == stmts_model(xs@),
            ss.len() == xs@.len(),
            forall|k: int| 0 <= k < xs@.len() ==> #[trigger] ss[k] == xs@[k]@,
            sigs_in_range(sigs@, fns@.len() as int),
            sg == sig_view(sigs@, functions_model(fns@)),
            no_sigs@ == Map::<Seq<char>, usize>::empty(),
            sig_view(no_sigs@, functions_model(fns@)) == Map::<Seq<char>, (Seq<Type>, Type)>::empty(),
            own_stmts(ss, i as int, env@, moved@, sg) == own_stmts(ss, 0, old(env)@, old(moved)@, sg),
        decreases xs.len() - i,
    {
        match &xs[i] {
            Stmt::Let(name, expr) => {
                ownership_expr(expr, env, moved, matches!(expr, Expr::Var(_)), sigs, fns)?;
                let ty = match expr_type(expr, env, &no_sigs, fns) {
                    Ok(t) => t,
                    Err(_) => Type::Unknown,
                };
                env.insert(name.clone(), ty);
                moved.insert(name.clone(), false);
            },
            Stmt::Assign(name, expr) => {
                ownership_expr(expr, env, moved, matches!(expr, Expr::Var(_)), sigs, fns)?;
                if !env.contains(name.as_str()) {
                    return Err(join3("assignment to undefined variable `", name.as_str(), "`"));
                }
                moved.insert(name.clone(), false);
            },
            Stmt::Decl(name, ty) => {
                env.insert(name.clone(), ty.duplicate());
                moved.insert(name.clone(), false);
            },
            Stmt::Expr(expr) => {
                ownership_expr(expr, env, moved, false, sigs, fns)?;
            },
            Stmt::Return(expr) => {
                ownership_expr(expr, env, moved, false, sigs, fns)?;
            },
            Stmt::If(condition, yes, no) => {
                ownership_expr(condition, env, moved, false, sigs, fns)?;
                proof {
                    assert(decreases_to!(xs@ => xs@[i as int]));
                    assert(decreases_to!(xs@[i as int] => xs@[i as int]->If_1));
                    assert(decreases_to!(xs@[i as int] => xs@[i as int]->If_2));
                    assert(decreases_to!(xs@[i as int]->If_1 => xs@[i as int]->If_1@));
                    assert(decreases_to!(xs@[i as int]->If_2 => xs@[i as int]->If_2@));
                }
                let ghost m1 = moved@;
                let mut a = moved.duplicate();
                let mut b = moved.duplicate();
                ownership_stmts(yes, env, &mut a, sigs, fns)?;
                ownership_stmts(no, env, &mut b, sigs, fns)?;
                mark_from(moved, &a);
                mark_from(moved, &b);
                proof {
                    lemma_join_moved(m1, a@, b@);
                }
            },
            Stmt::While(condition, body) => {
                ownership_expr(condition, env, moved, false, sigs, fns)?;
                proof {
                    assert(decreases_to!(xs@ => xs@[i as int]));
                    assert(decreases_to!(xs@[i as int] => xs@[i as int]->While_1));
                    assert(decreases_to!(xs@[i as int]->While_1 => xs@[i as int]->While_1@));
                }
                let mut state = moved.duplicate();
                ownership_stmts(body, env, &mut state, sigs, fns)?;
                mark_from(moved, &state);
            },
        }
        i += 1;
    }
    Ok(())
}


fn definite_expr(x: &Expr, types: &Table<Type>, assigned: &Table<()>) -> (res: Result<(), String>)
    ensures
        match def_expr(x@, types@, assigned@.dom()) {
            Some(e) => res is Err && res->Err_0@ == e,
            None => res is Ok,
        },
    decreases x,
{
    match x {
        Expr::Var(name) => {
            if !types.contains(name.as_str()) {
                return Err(join3("undefined variable `", name.as_str(), "`"));
            }
            if !assigned.contains(name.as_str()) {
                return Err(join3("use of uninitialized variable `", name.as_str(), "`"));
            }
            Ok(())
        },
        Expr::Binary(a, _, b) => {
            definite_expr(&**a, types, assigned)?;
            definite_expr(&**b, types, assigned)
        },
        Expr::Call(name, args) => {
            let ghost am = exprs_model(args@);
            proof {
                lemma_exprs_model(args@);
            }
            assert(x@ == ExprModel::Call(name@, am));
            let mut i: usize = 0;
            while i < args.len()
                invariant
                    i <= args.len(),
                    *x == Expr::Call(*name, *args),
                    am == exprs_model(args@),
                    am.len() == args@.len(),
                    forall|k: int| 0 <= k < args@.len() ==> #[trigger] am[k] == args@[k]@,
                    x@ == ExprModel::Call(name@, am),
                    def_args(am, i as int, types@, assigned@.dom()) == def_args(am, 0, types@, assigned@.dom()),
                decreases args.len() - i,
            {
                proof {
                    assert(decreases_to!(*x => (*x)->Call_1));
                    assert(decreases_to!((*x)->Call_1 => (*x)->Call_1@));
                    assert(decreases_to!((*x)->Call_1@ => args@[i as int]));
                }
                definite_expr(&args[i], types, assigned)?;
                i += 1;
            }
            Ok(())
        },
        _ => Ok(()),
    }
}

pub open spec fn kept_before(s: Seq<(String, ())>, other: Set<Seq<char>>, k: Seq<char>, j: int) -> bool {
    exists|t: int| 0 <= t < j && key_at(s, k, t) && other.contains(k)
}

/// The names in both `a` and `b`.
fn intersect(a: &Table<()>, b: &Table<()>) -> (r: Table<()>)
    ensures
        r@.dom() == a@.dom().intersect(b@.dom()),
{
    let mut r: Table<()> = Table::new();
    let n = a.len();
    let ghost ae = a.entries();
    let mut j: usize = 0;
    assert(r@.dom() =~= Set::new(|k: Seq<char>| kept_before(ae, b@.dom(), k, 0)));
    while j < n
        invariant
            j <= n,
            n == ae.len(),
            ae == a.entries(),
            distinct_keys(ae),
            a@ == entries_map(ae),
            r@.dom() == Set::new(|k: Seq<char>| kept_before(ae, b@.dom(), k, j as int)),
        decreases n - j,
    {
        let e = a.entry(j);
        let ghost kj = ae[j as int].0@;
        let ghost before = r@;
        if b.contains(e.0.as_str()) {
            r.insert(e.0.clone(), ());
            assert(r@.dom() == before.dom().insert(kj));
            assert forall|k: Seq<char>| #[trigger] kept_before(ae, b@.dom(), k, j + 1) <==> (kept_before(ae, b@.dom(), k, j as int) || k == kj) by {
                    if k == kj {
                        assert(key_at(ae, k, j as int));
                    }
                    if kept_before(ae, b@.dom(), k, j + 1) && k != kj {
                        let t = choose|t: int| 0 <= t < j + 1 && key_at(ae, k, t) && b@.dom().contains(k);
                        assert(t < j);
                    }
                    if kept_before(ae, b@.dom(), k, j as int) {
                        let t = choose|t: int| 0 <= t < j && key_at(ae, k, t) && b@.dom().contains(k);
                        assert(0 <= t < j + 1 && key_at(ae, k, t));
                    }
            }
            assert(r@.dom() =~= Set::new(|k: Seq<char>| kept_before(ae, b@.dom(), k, j + 1))) by {
                assert forall|k: Seq<char>| #[trigger] r@.dom().contains(k) <==> kept_before(ae, b@.dom(), k, j + 1) by {
                    if k == kj {
                        assert(key_at(ae, k, j as int));
                    }
                    if kept_before(ae, b@.dom(), k, j + 1) && k != kj {
                        let t = choose|t: int| 0 <= t < j + 1 && key_at(ae, k, t) && b@.dom().contains(k);
                        assert(t < j);
                    }
                    if kept_before(ae, b@.dom(), k, j as int) {
                        let t = choose|t: int| 0 <= t < j && key_at(ae, k, t) && b@.dom().contains(k);
                        assert(0 <= t < j + 1 && key_at(ae, k, t));
                    }
                }
            }
        } else {
            assert(r@.dom() =~= Set::new(|k: Seq<char>| kept_before(ae, b@.dom(), k, j + 1))) by {
                assert forall|k: Seq<char>| kept_before(ae, b@.dom(), k, j + 1) <==> kept_before(ae, b@.dom(), k, j as int) by {
                    if kept_before(ae, b@.dom(), k, j + 1) {
                        let t = choose|t: int| 0 <= t < j + 1 && key_at(ae, k, t) && b@.dom().contains(k);
                        assert(t < j);
                    }
                    if kept_before(ae, b@.dom(), k, j as int) {
                        let t = choose|t: int| 0 <= t < j && key_at(ae, k, t) && b@.dom().contains(k);
                        assert(0 <= t < j + 1 && key_at(ae, k, t));
                    }
                }
            }
        }
        j += 1;
    }
    assert(r@.dom() =~= a@.dom().intersect(b@.dom())) by {
        assert forall|k: Seq<char>| kept_before(ae, b@.dom(), k, n as int) <==> (a@.dom().contains(k) && b@.dom().contains(k)) by {
            if a@.dom().contains(k) && b@.dom().contains(k) {
                let t = choose|t: int| key_at(ae, k, t);
                assert(0 <= t < n && key_at(ae, k, t));
            }
        }
    }
    r
}

fn definite_stmts(xs: &Vec<Stmt>, types: &mut Table<Type>, assigned: &mut Table<()>) -> (res: Result<(), String>)
    ensures
        match def_stmts(stmts_model(xs@), 0, old(types)@, old(assigned)@.dom()) {
            Ok((t, a)) => res is Ok && final(types)@ == t && final(assigned)@.dom() == a,
            Err(m) => res is Err && res->Err_0@ == m,
        },
    decreases xs@,
{
    let ghost ss = stmts_model(xs@);
    proof {
        lemma_stmts_model(xs@);
    }
    let no_sigs: Table<usize> = Table::new();
    let no_fns: Vec<Function> = Vec::new();
    assert(sig_view(no_sigs@, functions_model(no_fns@)) =~= Map::empty());
    let mut i: usize = 0;
    while i < xs.len()
        invariant
            i <= xs.len(),
            ss == stmts_model(xs@),
            ss.len() == xs@.len(),
            forall|k: int| 0 <= k < xs@.len() ==> #[trigger] ss[k] == xs@[k]@,
            no_sigs@ == Map::<Seq<char>, usize>::empty(),
            sig_view(no_sigs@, functions_model(no_fns@)) == Map::<Seq<char>, (Seq<Type>, Type)>::empty(),
            def_stmts(ss, i as int, types@, assigned@.dom()) == def_stmts(ss, 0, old(types)@, old(assigned)@.dom()),
        decreases xs.len() - i,
    {
        match &xs[i] {
            Stmt::Decl(name, ty) => {
                types.insert(name.clone(), ty.duplicate());
                assigned.remove(name.as_str());
            },
            Stmt::Let(name, expr) => {
                definite_expr(expr, types, assigned)?;
                let ty = match expr_type(expr, types, &no_sigs, no_fns.as_slice()) {
                    Ok(t) => t,
                    Err(_) => Type::Unknown,
                };
                types.insert(name.clone(), ty);
                assigned.insert(name.clone(), ());
            },
            Stmt::Assign(name, expr) => {
                if !types.contains(name.as_str()) {
                    return Err(join3("assignment to undefined variable `", name.as_str(), "`"));
                }
                definite_expr(expr, types, assigned)?;
                assigned.insert(name.clone(), ());
            },
            Stmt::Expr(expr) => {
                definite_expr(expr, types, assigned)?;
            },
            Stmt::Return(expr) => {
                definite_expr(expr, types, assigned)?;
            },
            Stmt::If(condition, yes, no) => {
                definite_expr(condition, types, assigned)?;
                proof {
                    assert(decreases_to!(xs@ => xs@[i as int]));
                    assert(decreases_to!(xs@[i as int] => xs@[i as int]->If_1));
                    assert(decreases_to!(xs@[i as int] => xs@[i as int]->If_2));
                    assert(decreases_to!(xs@[i as int]->If_1 => xs@[i as int]->If_1@));
                    assert(decreases_to!(xs@[i as int]->If_2 => xs@[i as int]->If_2@));
                }
                let mut a = assigned.duplicate();
                let mut b = assigned.duplicate();
                definite_stmts(yes, types, &mut a)?;
                definite_stmts(no, types, &mut b)?;
                *assigned = intersect(&a, &b);
            },
            Stmt::While(condition, body) => {
                definite_expr(condition, types, assigned)?;
                proof {
                    assert(decreases_to!(xs@ => xs@[i as int]));
                    assert(decreases_to!(xs@[i as int] => xs@[i as int]->While_1));
                    assert(decreases_to!(xs@[i as int]->While_1 => xs@[i as int]->While_1@));
                }
                let mut state = assigned.duplicate();
                definite_stmts(body, types, &mut state)?;
            },
        }
        i += 1;
    }
    Ok(())
}


fn params_table(f: &Function) -> (t: Table<Type>)
    ensures
        t@ == param_env(f@, f@.params.len() as int),
{
    let mut t: Table<Type> = Table::new();
    let mut j: usize = 0;
    assert(t@ =~= param_env(f@, 0));
    while j < f.params.len()
        invariant
            j <= f.params@.len(),
            f@.params.len() == f.params@.len(),
            t@ == param_env(f@, j as int),
        decreases f.params.len() - j,
    {
        let ty = if j < f.param_types.len() { f.param_types[j].duplicate() } else { Type::Unknown };
        t.insert(f.params[j].clone(), ty);
        j += 1;
    }
    t
}

fn param_name_table(f: &Function) -> (t: Table<()>)
    ensures
        t@.dom() == param_names(f@, f@.params.len() as int),
{
    let mut t: Table<()> = Table::new();
    let mut j: usize = 0;
    assert(t@.dom() =~= param_names(f@, 0));
    while j < f.params.len()
        invariant
            j <= f.params@.len(),
            f@.params.len() == f.params@.len(),
            t@.dom() == param_names(f@, j as int),
        decreases f.params.len() - j,
    {
        t.insert(f.params[j].clone(), ());
        assert(t@.dom() =~= param_names(f@, j + 1));
        j += 1;
    }
    t
}

/// Checks types, definite assignment and ownership for a program's functions.
pub fn check(functions: &[Function]) -> (res: Result<(), String>)
    ensures
        match check_program(functions_model(functions@)) {
            Ok(_) => res is Ok,
            Err(m) => res is Err && res->Err_0@ == m,
        },
{
    let ghost fs = functions_model(functions@);
    let mut names: Table<()> = Table::new();
    let mut sigs: Table<usize> = Table::new();
    let mut i: usize = 0;
    assert(names@.dom() =~= Set::new(|n: Seq<char>| exists|t: int| 0 <= t < 0 && fs[t].name == n));
    assert(sig_view(sigs@, fs) =~= signatures(fs, 0));
    while i < functions.len()
        invariant
            i <= functions@.len(),
            fs == functions_model(functions@),
            fs.len() == functions@.len(),
            names@.dom() == Set::new(|n: Seq<char>| exists|t: int| 0 <= t < i && fs[t].name == n),
            duplicate_from(fs, i as int, names@.dom()) == duplicate_from(fs, 0, Set::empty()),
            sig_view(sigs@, fs) == signatures(fs, i as int),
            sigs_in_range(sigs@, i as int),
        decreases functions.len() - i,
    {
        let f = &functions[i];
        assert(fs[i as int] == f@);
        if names.contains(f.name.as_str()) {
            return Err(join3("duplicate function `", f.name.as_str(), "`"));
        }
        let ghost before = names@.dom();
        names.insert(f.name.clone(), ());
        assert(names@.dom() =~= Set::new(|n: Seq<char>| exists|t: int| 0 <= t < i + 1 && fs[t].name == n)) by {
            assert forall|n: Seq<char>| (exists|t: int| 0 <= t < i + 1 && fs[t].name == n) <==> (before.contains(n) || n == f.name@) by {
                if n == f.name@ {
                    assert(0 <= i < i + 1 && fs[i as int].name == n);
                }
                if exists|t: int| 0 <= t < i + 1 && fs[t].name == n {
                    let t = choose|t: int| 0 <= t < i + 1 && fs[t].name == n;
                    if t < i {
                        assert(before.contains(n));
                    }
                }
                if before.contains(n) {
                    let t = choose|t: int| 0 <= t < i && fs[t].name == n;
                    assert(0 <= t < i + 1 && fs[t].name == n);
                }
            }
        }
        let ghost sbefore = sigs@;
        sigs.insert(f.name.clone(), i);
        assert(sig_view(sigs@, fs) =~= signatures(fs, i + 1)) by {
            assert(signatures(fs, i + 1) == signatures(fs, i as int).insert(fs[i as int].name, (fs[i as int].param_types, fs[i as int].return_type)));
        }
        i += 1;
    }
    if !names.contains("main") {
        return Err(String::from_str("program must define fn main()"));
    }
    let ghost sg = sig_view(sigs@, fs);
    assert(names@.dom().contains("main"@));
    assert(check_program(fs) == check_functions(fs, 0, sg));
    let mut k: usize = 0;
    while k < functions.len()
        invariant
            k <= functions@.len(),
            fs == functions_model(functions@),
            fs.len() == functions@.len(),
            sigs_in_range(sigs@, functions@.len() as int),
            sg == sig_view(sigs@, fs),
            check_functions(fs, k as int, sg) == check_functions(fs, 0, sg),
            check_program(fs) == check_functions(fs, 0, sg),
        decreases functions.len() - k,
    {
        let f = &functions[k];
        assert(fs[k as int] == f@);
        let mut env = params_table(f);
        check_typed_stmts(&f.body, &mut env, &sigs, functions, &f.return_type)?;
        let mut definite = params_table(f);
        let mut assigned = param_name_table(f);
        definite_stmts(&f.body, &mut definite, &mut assigned)?;
        let mut moved: Table<bool> = Table::new();
        ownership_stmts(&f.body, &mut env, &mut moved, &sigs, functions)?;
        k += 1;
    }
    Ok(())
}

proof fn lemma_no_duplicate(fs: Seq<FunctionModel>, i: int, seen: Set<Seq<char>>)
    requires
        0 <= i <= fs.len(),
        duplicate_from(fs, i, seen) is None,
    ensures
        forall|a: int| i <= a < fs.len() ==> !seen.contains(#[trigger] fs[a].name),
        forall|a: int, b: int| i <= a < b < fs.len() ==> #[trigger] fs[a].name != #[trigger] fs[b].name,
    decreases fs.len() - i,
{
    if i < fs.len() {
        lemma_no_duplicate(fs, i + 1, seen.insert(fs[i].name));
    }
}

/// A program that passes the type checker defines `main`, and no two of its
/// functions share a name.
pub proof fn law_checked_program_names(fs: Seq<FunctionModel>)
    requires
        check_program(fs) is Ok,
    ensures
        exists|i: int| 0 <= i < fs.len() && #[trigger] fs[i].name == "main"@,
        forall|a: int, b: int| 0 <= a < b < fs.len() ==> #[trigger] fs[a].name != #[trigger] fs[b].name,
{
    lemma_no_duplicate(fs, 0, Set::empty());
}

/// Definite assignment across control flow: after an `if`, a variable counts
/// as assigned only if both branches assign it; a `while` body's assignments
/// do not count after the loop, which may run zero times.
pub proof fn law_definite_assignment_joins(
    c: ExprModel,
    yes: Seq<StmtModel>,
    no: Seq<StmtModel>,
    body: Seq<StmtModel>,
    types: Env,
    assigned: Set<Seq<char>>,
)
    ensures
        def_stmts(seq![StmtModel::If(c, yes, no)], 0, types, assigned) matches Ok((_, after)) ==> {
            &&& def_stmts(yes, 0, types, assigned) is Ok
            &&& def_stmts(no, 0, def_stmts(yes, 0, types, assigned)->Ok_0.0, assigned) is Ok
            &&& after == def_stmts(yes, 0, types, assigned)->Ok_0.1.intersect(
                def_stmts(no, 0, def_stmts(yes, 0, types, assigned)->Ok_0.0, assigned)->Ok_0.1)
        },
        def_stmts(seq![StmtModel::While(c, body)], 0, types, assigned) matches Ok((_, after)) ==> after == assigned,
{
    let s1 = seq![StmtModel::If(c, yes, no)];
    let s2 = seq![StmtModel::While(c, body)];
    assert(s1[0] == StmtModel::If(c, yes, no));
    assert(s2[0] == StmtModel::While(c, body));
    reveal_with_fuel(def_stmts, 2);
}

/// Moves across control flow: after an `if`, a variable that either branch
/// moved counts as moved; after a `while`, a variable that its body moved
/// counts as moved.
pub proof fn law_moves_join(
    c: ExprModel,
    yes: Seq<StmtModel>,
    no: Seq<StmtModel>,
    body: Seq<StmtModel>,
    env: Env,
    moved: Map<Seq<char>, bool>,
    sigs: Sigs,
)
    ensures
        own_stmts(seq![StmtModel::If(c, yes, no)], 0, env, moved, sigs) matches Ok((_, after)) ==> {
            let m1 = own_expr(c, env, moved, false, sigs)->Ok_0;
            let branch = own_stmts(yes, 0, env, m1, sigs)->Ok_0;
            let other = own_stmts(no, 0, branch.0, m1, sigs)->Ok_0;
            forall|n: Seq<char>| #![trigger after[n]]
                (branch.1.contains_key(n) && branch.1[n]) || (other.1.contains_key(n) && other.1[n])
                    ==> after.contains_key(n) && after[n]
        },
        own_stmts(seq![StmtModel::While(c, body)], 0, env, moved, sigs) matches Ok((_, after)) ==> {
            let m1 = own_expr(c, env, moved, false, sigs)->Ok_0;
            let inner = own_stmts(body, 0, env, m1, sigs)->Ok_0;
            forall|n: Seq<char>| #![trigger after[n]]
                inner.1.contains_key(n) && inner.1[n] ==> after.contains_key(n) && after[n]
        },
{
    let s1 = seq![StmtModel::If(c, yes, no)];
    assert(s1[0] == StmtModel::If(c, yes, no));
    let s2 = seq![StmtModel::While(c, body)];
    assert(s2[0] == StmtModel::While(c, body));
    reveal_with_fuel(own_stmts, 2);
}

/// Evaluating an expression never gives a moved value back.
proof fn lemma_own_expr_keeps(x: ExprModel, env: Env, moved: Map<Seq<char>, bool>, mv: bool, sigs: Sigs, v: Seq<char>)
    ensures
        own_expr(x, env, moved, mv, sigs) matches Ok(m2) ==> (moved.contains_key(v) && moved[v] ==> m2.contains_key(v) && m2[v]),
    decreases x,
{
    match x {
        ExprModel::Binary(a, _, b) => {
            lemma_own_expr_keeps(*a, env, moved, false, sigs, v);
            if let Ok(m) = own_expr(*a, env, moved, false, sigs) {
                lemma_own_expr_keeps(*b, env, m, false, sigs, v);
            }
        },
        ExprModel::Call(n, args) => {
            lemma_own_args_keeps(args, 0, env, moved, n, sigs, v);
        },
        _ => {},
    }
}

proof fn lemma_own_args_keeps(args: Seq<ExprModel>, i: int, env: Env, moved: Map<Seq<char>, bool>, n: Seq<char>, sigs: Sigs, v: Seq<char>)
    ensures
        own_args(args, i, env, moved, n, sigs) matches Ok(m2) ==> (moved.contains_key(v) && moved[v] ==> m2.contains_key(v) && m2[v]),
    decreases args, args.len() - i,
{
    if 0 <= i < args.len() {
        lemma_own_expr_keeps(args[i], env, moved, !borrows_arg(n, i, sigs), sigs, v);
        if let Ok(m) = own_expr(args[i], env, moved, !borrows_arg(n, i, sigs), sigs) {
            lemma_own_args_keeps(args, i + 1, env, m, n, sigs, v);
        }
    }
}

/// A variable of a type that is not copied, given to a by-value parameter of
/// a call, is moved once the call's arguments are evaluated.
pub proof fn law_by_value_argument_moves(n: Seq<char>, args: Seq<ExprModel>, k: int, env: Env, moved: Map<Seq<char>, bool>, sigs: Sigs)
    requires
        0 <= k < args.len(),
        args[k] is Var,
        !borrows_arg(n, k, sigs),
        !copyable(type_or_unknown(env, args[k]->Var_0)),
    ensures
        own_expr(ExprModel::Call(n, args), env, moved, false, sigs) matches Ok(after)
            ==> after.contains_key(args[k]->Var_0) && after[args[k]->Var_0],
{
    lemma_args_move(args, 0, k, env, moved, n, sigs);
}

proof fn lemma_args_move(args: Seq<ExprModel>, i: int, k: int, env: Env, moved: Map<Seq<char>, bool>, n: Seq<char>, sigs: Sigs)
    requires
        0 <= i <= k < args.len(),
        args[k] is Var,
        !borrows_arg(n, k, sigs),
        !copyable(type_or_unknown(env, args[k]->Var_0)),
    ensures
        own_args(args, i, env, moved, n, sigs) matches Ok(after)
            ==> after.contains_key(args[k]->Var_0) && after[args[k]->Var_0],
    decreases k - i,
{
    let v = args[k]->Var_0;
    if let Ok(m) = own_expr(args[i], env, moved, !borrows_arg(n, i, sigs), sigs) {
        if i < k {
            lemma_args_move(args, i + 1, k, env, m, n, sigs);
        } else {
            assert(m.contains_key(v) && m[v]);
            lemma_own_args_keeps(args, i + 1, env, m, n, sigs, v);
        }
    }
}

/// The built-in calls have the result types the language gives them: with
/// arguments that type-check, `channel()` is a `Channel`, `spawn(..)` a
/// `Thread`, the string and list queries `Int` or `Bool`, the string
/// operations `String`, the list and map builders `List` and `Map`, the
/// element reads and `receive` `Unknown`, and `print`, `send` and `join` `Unit`.
pub proof fn law_builtin_result_types(args: Seq<ExprModel>, env: Env, sigs: Sigs)
    requires
        args_error(args, 0, env, sigs) is None,
    ensures
        type_of(ExprModel::Call("channel"@, args), env, sigs) == Ok::<Type, Seq<char>>(Type::Channel),
        type_of(ExprModel::Call("spawn"@, args), env, sigs) == Ok::<Type, Seq<char>>(Type::Thread),
        type_of(ExprModel::Call("str_len"@, args), env, sigs) == Ok::<Type, Seq<char>>(Type::Int),
        type_of(ExprModel::Call("list_len"@, args), env, sigs) == Ok::<Type, Seq<char>>(Type::Int),
        type_of(ExprModel::Call("str_contains"@, args), env, sigs) == Ok::<Type, Seq<char>>(Type::Bool),
        type_of(ExprModel::Call("map_has"@, args), env, sigs) == Ok::<Type, Seq<char>>(Type::Bool),
        type_of(ExprModel::Call("str_upper"@, args), env, sigs) == Ok::<Type, Seq<char>>(Type::Str),
        type_of(ExprModel::Call("str_lower"@, args), env, sigs) == Ok::<Type, Seq<char>>(Type::Str),
        type_of(ExprModel::Call("str_trim"@, args), env, sigs) == Ok::<Type, Seq<char>>(Type::Str),
        type_of(ExprModel::Call("str_concat"@, args), env, sigs) == Ok::<Type, Seq<char>>(Type::Str),
        type_of(ExprModel::Call("list"@, args), env, sigs) == Ok::<Type, Seq<char>>(Type::List),
        type_of(ExprModel::Call("list_push"@, args), env, sigs) == Ok::<Type, Seq<char>>(Type::List),
        type_of(ExprModel::Call("list_set"@, args), env, sigs) == Ok::<Type, Seq<char>>(Type::List),
        type_of(ExprModel::Call("list_concat"@, args), env, sigs) == Ok::<Type, Seq<char>>(Type::List),
        type_of(ExprModel::Call("map"@, args), env, sigs) == Ok::<Type, Seq<char>>(Type::Dict),
        type_of(ExprModel::Call("map_set"@, args), env, sigs) == Ok::<Type, Seq<char>>(Type::Dict),
        type_of(ExprModel::Call("receive"@, args), env, sigs) == Ok::<Type, Seq<char>>(Type::Unknown),
        type_of(ExprModel::Call("list_get"@, args), env, sigs) == Ok::<Type, Seq<char>>(Type::Unknown),
        type_of(ExprModel::Call("map_get"@, args), env, sigs) == Ok::<Type, Seq<char>>(Type::Unknown),
        type_of(ExprModel::Call("print"@, args), env, sigs) == Ok::<Type, Seq<char>>(Type::Unit),
        type_of(ExprModel::Call("send"@, args), env, sigs) == Ok::<Type, Seq<char>>(Type::Unit),
        type_of(ExprModel::Call("join"@, args), env, sigs) == Ok::<Type, Seq<char>>(Type::Unit),
{
    assert(is_builtin("channel"@) && builtin_type("channel"@) == Type::Channel) by {
        reveal_strlit("channel");
        reveal_strlit("spawn");
        assert("channel"@.len() != "spawn"@.len());
    }
    assert(is_builtin("spawn"@) && builtin_type("spawn"@) == Type::Thread) by {
        reveal_strlit("spawn");
    }
    assert(is_builtin("str_len"@) && builtin_type("str_len"@) == Type::Int) by {
        reveal_strlit("channel");
        reveal_strlit("list_get");
        reveal_strlit("map_get");
        reveal_strlit("receive");
        reveal_strlit("spawn");
        reveal_strlit("str_len");
        assert("str_len"@.len() != "spawn"@.len());
        assert("str_len"@[0] != "channel"@[0]);
        assert("str_len"@[0] != "receive"@[0]);
        assert("str_len"@.len() != "list_get"@.len());
        assert("str_len"@[0] != "map_get"@[0]);
    }
    assert(is_builtin("list_len"@) && builtin_type("list_len"@) == Type::Int) by {
        reveal_strlit("channel");
        reveal_strlit("list_get");
        reveal_strlit("list_len");
        reveal_strlit("map_get");
        reveal_strlit("receive");
        reveal_strlit("spawn");
        reveal_strlit("str_len");
        assert("list_len"@.len() != "spawn"@.len());
        assert("list_len"@.len() != "channel"@.len());
        assert("list_len"@.len() != "receive"@.len());
        assert("list_len"@[5] != "list_get"@[5]);
        assert("list_len"@.len() != "map_get"@.len());
        assert("list_len"@.len() != "str_len"@.len());
    }
    assert(is_builtin("str_contains"@) && builtin_type("str_contains"@) == Type::Bool) by {
        reveal_strlit("channel");
        reveal_strlit("list_get");
        reveal_strlit("list_len");
        reveal_strlit("map_get");
        reveal_strlit("receive");
        reveal_strlit("spawn");
        reveal_strlit("str_contains");
        reveal_strlit("str_len");
        assert("str_contains"@.len() != "spawn"@.len());
        assert("str_contains"@.len() != "channel"@.len());
        assert("str_contains"@.len() != "receive"@.len());
        assert("str_contains"@.len() != "list_get"@.len());
        assert("str_contains"@.len() != "map_get"@.len());
        assert("str_contains"@.len() != "str_len"@.len());
        assert("str_contains"@.len() != "list_len"@.len());
    }
    assert(is_builtin("map_has"@) && builtin_type("map_has"@) == Type::Bool) by {
        reveal_strlit("channel");
        reveal_strlit("list_get");
        reveal_strlit("list_len");
        reveal_strlit("map_get");
        reveal_strlit("map_has");
        reveal_strlit("receive");
        reveal_strlit("spawn");
        reveal_strlit("str_contains");
        reveal_strlit("str_len");
        assert("map_has"@.len() != "spawn"@.len());
        assert("map_has"@[0] != "channel"@[0]);
        assert("map_has"@[0] != "receive"@[0]);
        assert("map_has"@.len() != "list_get"@.len());
        assert("map_has"@[4] != "map_get"@[4]);
        assert("map_has"@[0] != "str_len"@[0]);
        assert("map_has"@.len() != "list_len"@.len());
        assert("map_has"@.len() != "str_contains"@.len());
    }
    assert(is_builtin("str_upper"@) && builtin_type("str_upper"@) == Type::Str) by {
        reveal_strlit("channel");
        reveal_strlit("list_get");
        reveal_strlit("list_len");
        reveal_strlit("map_get");
        reveal_strlit("map_has");
        reveal_strlit("receive");
        reveal_strlit("spawn");
        reveal_strlit("str_contains");
        reveal_strlit("str_len");
        reveal_strlit("str_upper");
        assert("str_upper"@.len() != "spawn"@.len());
        assert("str_upper"@.len() != "channel"@.len());
        assert("str_upper"@.len() != "receive"@.len());
        assert("str_upper"@.len() != "list_get"@.len());
        assert("str_upper"@.len() != "map_get"@.len());
        assert("str_upper"@.len() != "str_len"@.len());
        assert("str_upper"@.len() != "list_len"@.len());
        assert("str_upper"@.len() != "str_contains"@.len());
        assert("str_upper"@.len() != "map_has"@.len());
    }
    assert(is_builtin("str_lower"@) && builtin_type("str_lower"@) == Type::Str) by {
        reveal_strlit("channel");
        reveal_strlit("list_get");
        reveal_strlit("list_len");
        reveal_strlit("map_get");
        reveal_strlit("map_has");
        reveal_strlit("receive");
        reveal_strlit("spawn");
        reveal_strlit("str_contains");
        reveal_strlit("str_len");
        reveal_strlit("str_lower");
        reveal_strlit("str_upper");
        assert("str_lower"@.len() != "spawn"@.len());
        assert("str_lower"@.len() != "channel"@.len());
        assert("str_lower"@.len() != "receive"@.len());
        assert("str_lower"@.len() != "list_get"@.len());
        assert("str_lower"@.len() != "map_get"@.len());
        assert("str_lower"@.len() != "str_len"@.len());
        assert("str_lower"@.len() != "list_len"@.len());
        assert("str_lower"@.len() != "str_contains"@.len());
        assert("str_lower"@.len() != "map_has"@.len());
        assert("str_lower"@[4] != "str_upper"@[4]);
    }
    assert(is_builtin("str_trim"@) && builtin_type("str_trim"@) == Type::Str) by {
        reveal_strlit("channel");
        reveal_strlit("list_get");
        reveal_strlit("list_len");
        reveal_strlit("map_get");
        reveal_strlit("map_has");
        reveal_strlit("receive");
        reveal_strlit("spawn");
        reveal_strlit("str_contains");
        reveal_strlit("str_len");
        reveal_strlit("str_lower");
        reveal_strlit("str_trim");
        reveal_strlit("str_upper");
        assert("str_trim"@.len() != "spawn"@.len());
        assert("str_trim"@.len() != "channel"@.len());
        assert("str_trim"@.len() != "receive"@.len());
        assert("str_trim"@[0] != "list_get"@[0]);
        assert("str_trim"@.len() != "map_get"@.len());
        assert("str_trim"@.len() != "str_len"@.len());
        assert("str_trim"@[0] != "list_len"@[0]);
        assert("str_trim"@.len() != "str_contains"@.len());
        assert("str_trim"@.len() != "map_has"@.len());
        assert("str_trim"@.len() != "str_upper"@.len());
        assert("str_trim"@.len() != "str_lower"@.len());
    }
    assert(is_builtin("str_concat"@) && builtin_type("str_concat"@) == Type::Str) by {
        reveal_strlit("channel");
        reveal_strlit("list_get");
        reveal_strlit("list_len");
        reveal_strlit("map_get");
        reveal_strlit("map_has");
        reveal_strlit("receive");
        reveal_strlit("spawn");
        reveal_strlit("str_concat");
        reveal_strlit("str_contains");
        reveal_strlit("str_len");
        reveal_strlit("str_lower");
        reveal_strlit("str_trim");
        reveal_strlit("str_upper");
        assert("str_concat"@.len() != "spawn"@.len());
        assert("str_concat"@.len() != "channel"@.len());
        assert("str_concat"@.len() != "receive"@.len());
        assert("str_concat"@.len() != "list_get"@.len());
        assert("str_concat"@.len() != "map_get"@.len());
        assert("str_concat"@.len() != "str_len"@.len());
        assert("str_concat"@.len() != "list_len"@.len());
        assert("str_concat"@.len() != "str_contains"@.len());
        assert("str_concat"@.len() != "map_has"@.len());
        assert("str_concat"@.len() != "str_upper"@.len());
        assert("str_concat"@.len() != "str_lower"@.len());
        assert("str_concat"@.len() != "str_trim"@.len());
    }
    assert(is_builtin("list"@) && builtin_type("list"@) == Type::List) by {
        reveal_strlit("channel");
        reveal_strlit("list");
        reveal_strlit("list_get");
        reveal_strlit("list_len");
        reveal_strlit("map_get");
        reveal_strlit("map_has");
        reveal_strlit("receive");
        reveal_strlit("spawn");
        reveal_strlit("str_concat");
        reveal_strlit("str_contains");
        reveal_strlit("str_len");
        reveal_strlit("str_lower");
        reveal_strlit("str_trim");
        reveal_strlit("str_upper");
        assert("list"@.len() != "spawn"@.len());
        assert("list"@.len() != "channel"@.len());
        assert("list"@.len() != "receive"@.len());
        assert("list"@.len() != "list_get"@.len());
        assert("list"@.len() != "map_get"@.len());
        assert("list"@.len() != "str_len"@.len());
        assert("list"@.len() != "list_len"@.len());
        assert("list"@.len() != "str_contains"@.len());
        assert("list"@.len() != "map_has"@.len());
        assert("list"@.len() != "str_upper"@.len());
        assert("list"@.len() != "str_lower"@.len());
        assert("list"@.len() != "str_trim"@.len());
        assert("list"@.len() != "str_concat"@.len());
    }
    assert(is_builtin("list_push"@) && builtin_type("list_push"@) == Type::List) by {
        reveal_strlit("channel");
        reveal_strlit("list");
        reveal_strlit("list_get");
        reveal_strlit("list_len");
        reveal_strlit("list_push");
        reveal_strlit("map_get");
        reveal_strlit("map_has");
        reveal_strlit("receive");
        reveal_strlit("spawn");
        reveal_strlit("str_concat");
        reveal_strlit("str_contains");
        reveal_strlit("str_len");
        reveal_strlit("str_lower");
        reveal_strlit("str_trim");
        reveal_strlit("str_upper");
        assert("list_push"@.len() != "spawn"@.len());
        assert("list_push"@.len() != "channel"@.len());
        assert("list_push"@.len() != "receive"@.len());
        assert("list_push"@.len() != "list_get"@.len());
        assert("list_push"@.len() != "map_get"@.len());
        assert("list_push"@.len() != "str_len"@.len());
        assert("list_push"@.len() != "list_len"@.len());
        assert("list_push"@.len() != "str_contains"@.len());
        assert("list_push"@.len() != "map_has"@.len());
        assert("list_push"@[0] != "str_upper"@[0]);
        assert("list_push"@[0] != "str_lower"@[0]);
        assert("list_push"@.len() != "str_trim"@.len());
        assert("list_push"@.len() != "str_concat"@.len());
        assert("list_push"@.len() != "list"@.len());
    }
    assert(is_builtin("list_set"@) && builtin_type("list_set"@) == Type::List) by {
        reveal_strlit("channel");
        reveal_strlit("list");
        reveal_strlit("list_get");
        reveal_strlit("list_len");
        reveal_strlit("list_push");
        reveal_strlit("list_set");
        reveal_strlit("map_get");
        reveal_strlit("map_has");
        reveal_strlit("receive");
        reveal_strlit("spawn");
        reveal_strlit("str_concat");
        reveal_strlit("str_contains");
        reveal_strlit("str_len");
        reveal_strlit("str_lower");
        reveal_strlit("str_trim");
        reveal_strlit("str_upper");
        assert("list_set"@.len() != "spawn"@.len());
        assert("list_set"@.len() != "channel"@.len());
        assert("list_set"@.len() != "receive"@.len());
        assert("list_set"@[5] != "list_get"@[5]);
        assert("list_set"@.len() != "map_get"@.len());
        assert("list_set"@.len() != "str_len"@.len());
        assert("list_set"@[5] != "list_len"@[5]);
        assert("list_set"@.len() != "str_contains"@.len());
        assert("list_set"@.len() != "map_has"@.len());
        assert("list_set"@.len() != "str_upper"@.len());
        assert("list_set"@.len() != "str_lower"@.len());
        assert("list_set"@[0] != "str_trim"@[0]);
        assert("list_set"@.len() != "str_concat"@.len());
        assert("list_set"@.len() != "list"@.len());
        assert("list_set"@.len() != "list_push"@.len());
    }
    assert(is_builtin("list_concat"@) && builtin_type("list_concat"@) == Type::List) by {
        reveal_strlit("channel");
        reveal_strlit("list");
        reveal_strlit("list_concat");
        reveal_strlit("list_get");
        reveal_strlit("list_len");
        reveal_strlit("list_push");
        reveal_strlit("list_set");
        reveal_strlit("map_get");
        reveal_strlit("map_has");
        reveal_strlit("receive");
        reveal_strlit("spawn");
        reveal_strlit("str_concat");
        reveal_strlit("str_contains");
        reveal_strlit("str_len");
        reveal_strlit("str_lower");
        reveal_strlit("str_trim");
        reveal_strlit("str_upper");
        assert("list_concat"@.len() != "spawn"@.len());
        assert("list_concat"@.len() != "channel"@.len());
        assert("list_concat"@.len() != "receive"@.len());
        assert("list_concat"@.len() != "list_get"@.len());
        assert("list_concat"@.len() != "map_get"@.len());
        assert("list_concat"@.len() != "str_len"@.len());
        assert("list_concat"@.len() != "list_len"@.len());
        assert("list_concat"@.len() != "str_contains"@.len());
        assert("list_concat"@.len() != "map_has"@.len());
        assert("list_concat"@.len() != "str_upper"@.len());
        assert("list_concat"@.len() != "str_lower"@.len());
        assert("list_concat"@.len() != "str_trim"@.len());
        assert("list_concat"@.len() != "str_concat"@.len());
        assert("list_concat"@.len() != "list"@.len());
        assert("list_concat"@.len() != "list_push"@.len());
        assert("list_concat"@.len() != "list_set"@.len());
    }
    assert(is_builtin("map"@) && builtin_type("map"@) == Type::Dict) by {
        reveal_strlit("channel");
        reveal_strlit("list");
        reveal_strlit("list_concat");
        reveal_strlit("list_get");
        reveal_strlit("list_len");
        reveal_strlit("list_push");
        reveal_strlit("list_set");
        reveal_strlit("map");
        reveal_strlit("map_get");
        reveal_strlit("map_has");
        reveal_strlit("receive");
        reveal_strlit("spawn");
        reveal_strlit("str_concat");
        reveal_strlit("str_contains");
        reveal_strlit("str_len");
        reveal_strlit("str_lower");
        reveal_strlit("str_trim");
        reveal_strlit("str_upper");
        assert("map"@.len() != "spawn"@.len());
        assert("map"@.len() != "channel"@.len());
        assert("map"@.len() != "receive"@.len());
        assert("map"@.len() != "list_get"@.len());
        assert("map"@.len() != "map_get"@.len());
        assert("map"@.len() != "str_len"@.len());
        assert("map"@.len() != "list_len"@.len());
        assert("map"@.len() != "str_contains"@.len());
        assert("map"@.len() != "map_has"@.len());
        assert("map"@.len() != "str_upper"@.len());
        assert("map"@.len() != "str_lower"@.len());
        assert("map"@.len() != "str_trim"@.len());
        assert("map"@.len() != "str_concat"@.len());
        assert("map"@.len() != "list"@.len());
        assert("map"@.len() != "list_push"@.len());
        assert("map"@.len() != "list_set"@.len());
        assert("map"@.len() != "list_concat"@.len());
    }
    assert(is_builtin("map_set"@) && builtin_type("map_set"@) == Type::Dict) by {
        reveal_strlit("channel");
        reveal_strlit("list");
        reveal_strlit("list_concat");
        reveal_strlit("list_get");
        reveal_strlit("list_len");
        reveal_strlit("list_push");
        reveal_strlit("list_set");
        reveal_strlit("map");
        reveal_strlit("map_get");
        reveal_strlit("map_has");
        reveal_strlit("map_set");
        reveal_strlit("receive");
        reveal_strlit("spawn");
        reveal_strlit("str_concat");
        reveal_strlit("str_contains");
        reveal_strlit("str_len");
        reveal_strlit("str_lower");
        reveal_strlit("str_trim");
        reveal_strlit("str_upper");
        assert("map_set"@.len() != "spawn"@.len());
        assert("map_set"@[0] != "channel"@[0]);
        assert("map_set"@[0] != "receive"@[0]);
        assert("map_set"@.len() != "list_get"@.len());
        assert("map_set"@[4] != "map_get"@[4]);
        assert("map_set"@[0] != "str_len"@[0]);
        assert("map_set"@.len() != "list_len"@.len());
        assert("map_set"@.len() != "str_contains"@.len());
        assert("map_set"@[4] != "map_has"@[4]);
        assert("map_set"@.len() != "str_upper"@.len());
        assert("map_set"@.len() != "str_lower"@.len());
        assert("map_set"@.len() != "str_trim"@.len());
        assert("map_set"@.len() != "str_concat"@.len());
        assert("map_set"@.len() != "list"@.len());
        assert("map_set"@.len() != "list_push"@.len());
        assert("map_set"@.len() != "list_set"@.len());
        assert("map_set"@.len() != "list_concat"@.len());
        assert("map_set"@.len() != "map"@.len());
    }
    assert(is_builtin("receive"@) && builtin_type("receive"@) == Type::Unknown) by {
        reveal_strlit("channel");
        reveal_strlit("receive");
        reveal_strlit("spawn");
        assert("receive"@.len() != "spawn"@.len());
        assert("receive"@[0] != "channel"@[0]);
    }
    assert(is_builtin("list_get"@) && builtin_type("list_get"@) == Type::Unknown) by {
        reveal_strlit("channel");
        reveal_strlit("list_get");
        reveal_strlit("receive");
        reveal_strlit("spawn");
        assert("list_get"@.len() != "spawn"@.len());
        assert("list_get"@.len() != "channel"@.len());
        assert("list_get"@.len() != "receive"@.len());
    }
    assert(is_builtin("map_get"@) && builtin_type("map_get"@) == Type::Unknown) by {
        reveal_strlit("channel");
        reveal_strlit("list_get");
        reveal_strlit("map_get");
        reveal_strlit("receive");
        reveal_strlit("spawn");
        assert("map_get"@.len() != "spawn"@.len());
        assert("map_get"@[0] != "channel"@[0]);
        assert("map_get"@[0] != "receive"@[0]);
        assert("map_get"@.len() != "list_get"@.len());
    }
    assert(is_builtin("print"@) && builtin_type("print"@) == Type::Unit) by {
        reveal_strlit("channel");
        reveal_strlit("list");
        reveal_strlit("list_concat");
        reveal_strlit("list_get");
        reveal_strlit("list_len");
        reveal_strlit("list_push");
        reveal_strlit("list_set");
        reveal_strlit("map");
        reveal_strlit("map_get");
        reveal_strlit("map_has");
        reveal_strlit("map_set");
        reveal_strlit("print");
        reveal_strlit("receive");
        reveal_strlit("spawn");
        reveal_strlit("str_concat");
        reveal_strlit("str_contains");
        reveal_strlit("str_len");
        reveal_strlit("str_lower");
        reveal_strlit("str_trim");
        reveal_strlit("str_upper");
        assert("print"@[0] != "spawn"@[0]);
        assert("print"@.len() != "channel"@.len());
        assert("print"@.len() != "receive"@.len());
        assert("print"@.len() != "list_get"@.len());
        assert("print"@.len() != "map_get"@.len());
        assert("print"@.len() != "str_len"@.len());
        assert("print"@.len() != "list_len"@.len());
        assert("print"@.len() != "str_contains"@.len());
        assert("print"@.len() != "map_has"@.len());
        assert("print"@.len() != "str_upper"@.len());
        assert("print"@.len() != "str_lower"@.len());
        assert("print"@.len() != "str_trim"@.len());
        assert("print"@.len() != "str_concat"@.len());
        assert("print"@.len() != "list"@.len());
        assert("print"@.len() != "list_push"@.len());
        assert("print"@.len() != "list_set"@.len());
        assert("print"@.len() != "list_concat"@.len());
        assert("print"@.len() != "map"@.len());
        assert("print"@.len() != "map_set"@.len());
    }
    assert(is_builtin("send"@) && builtin_type("send"@) == Type::Unit) by {
        reveal_strlit("channel");
        reveal_strlit("list");
        reveal_strlit("list_concat");
        reveal_strlit("list_get");
        reveal_strlit("list_len");
        reveal_strlit("list_push");
        reveal_strlit("list_set");
        reveal_strlit("map");
        reveal_strlit("map_get");
        reveal_strlit("map_has");
        reveal_strlit("map_set");
        reveal_strlit("receive");
        reveal_strlit("send");
        reveal_strlit("spawn");
        reveal_strlit("str_concat");
        reveal_strlit("str_contains");
        reveal_strlit("str_len");
        reveal_strlit("str_lower");
        reveal_strlit("str_trim");
        reveal_strlit("str_upper");
        assert("send"@.len() != "spawn"@.len());
        assert("send"@.len() != "channel"@.len());
        assert("send"@.len() != "receive"@.len());
        assert("send"@.len() != "list_get"@.len());
        assert("send"@.len() != "map_get"@.len());
        assert("send"@.len() != "str_len"@.len());
        assert("send"@.len() != "list_len"@.len());
        assert("send"@.len() != "str_contains"@.len());
        assert("send"@.len() != "map_has"@.len());
        assert("send"@.len() != "str_upper"@.len());
        assert("send"@.len() != "str_lower"@.len());
        assert("send"@.len() != "str_trim"@.len());
        assert("send"@.len() != "str_concat"@.len());
        assert("send"@[0] != "list"@[0]);
        assert("send"@.len() != "list_push"@.len());
        assert("send"@.len() != "list_set"@.len());
        assert("send"@.len() != "list_concat"@.len());
        assert("send"@.len() != "map"@.len());
        assert("send"@.len() != "map_set"@.len());
    }
    assert(is_builtin("join"@) && builtin_type("join"@) == Type::Unit) by {
        reveal_strlit("channel");
        reveal_strlit("join");
        reveal_strlit("list");
        reveal_strlit("list_concat");
        reveal_strlit("list_get");
        reveal_strlit("list_len");
        reveal_strlit("list_push");
        reveal_strlit("list_set");
        reveal_strlit("map");
        reveal_strlit("map_get");
        reveal_strlit("map_has");
        reveal_strlit("map_set");
        reveal_strlit("receive");
        reveal_strlit("spawn");
        reveal_strlit("str_concat");
        reveal_strlit("str_contains");
        reveal_strlit("str_len");
        reveal_strlit("str_lower");
        reveal_strlit("str_trim");
        reveal_strlit("str_upper");
        assert("join"@.len() != "spawn"@.len());
        assert("join"@.len() != "channel"@.len());
        assert("join"@.len() != "receive"@.len());
        assert("join"@.len() != "list_get"@.len());
        assert("join"@.len() != "map_get"@.len());
        assert("join"@.len() != "str_len"@.len());
        assert("join"@.len() != "list_len"@.len());
        assert("join"@.len() != "str_contains"@.len());
        assert("join"@.len() != "map_has"@.len());
        assert("join"@.len() != "str_upper"@.len());
        assert("join"@.len() != "str_lower"@.len());
        assert("join"@.len() != "str_trim"@.len());
        assert("join"@.len() != "str_concat"@.len());
        assert("join"@[0] != "list"@[0]);
        assert("join"@.len() != "list_push"@.len());
        assert("join"@.len() != "list_set"@.len());
        assert("join"@.len() != "list_concat"@.len());
        assert("join"@.len() != "map"@.len());
        assert("join"@.len() != "map_set"@.len());
    }
}

/// A channel handle is copied, never moved: after `let ch = channel();`,
/// passing `ch` by value, any number of times, leaves it usable.
pub proof fn law_channel_is_copied(ch: Seq<char>, env: Env, moved: Map<Seq<char>, bool>, sigs: Sigs)
    ensures
        own_expr(
            ExprModel::Var(ch),
            env.insert(ch, plain_type(ExprModel::Call("channel"@, seq![]), env)),
            moved.insert(ch, false),
            true,
            sigs,
        ) == Ok::<Map<Seq<char>, bool>, Seq<char>>(moved.insert(ch, false)),
{
    law_builtin_result_types(seq![], env, Map::empty());
}

/// Passing a variable by value copies `Int`, `Bool`, `Unit`, `Channel` and
/// `Thread` values and references, and moves strings, lists, maps and values
/// of unknown type.
pub proof fn law_copied_and_moved_types(n: Seq<char>, t: Type, env: Env, moved: Map<Seq<char>, bool>, sigs: Sigs)
    requires
        !(moved.contains_key(n) && moved[n]),
    ensures
        (t is Int || t is Bool || t is Unit || t is Channel || t is Thread || t is Ref || t is MutRef)
            ==> own_expr(ExprModel::Var(n), env.insert(n, t), moved, true, sigs) == Ok::<Map<Seq<char>, bool>, Seq<char>>(moved),
        (t is Str || t is List || t is Dict || t is Unknown)
            ==> own_expr(ExprModel::Var(n), env.insert(n, t), moved, true, sigs)
                == Ok::<Map<Seq<char>, bool>, Seq<char>>(moved.insert(n, true)),
{
}

} // verus!
