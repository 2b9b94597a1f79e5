//! S+N++ abstract syntax tree and language data models.

use vstd::prelude::*;
use crate::lexer::{Lexeme, Token};

verus! {

#[derive(Debug)]
pub enum Type {
    Int,
    Str,
    Bool,
    Unit,
    Channel,
    Thread,
    List,
    Dict,
    Ref(Box<Type>),
    MutRef(Box<Type>),
    Unknown,
}

#[derive(Debug)]
pub enum Expr {
    Int(i64),
    Str(String),
    Bool(bool),
    Var(String),
    Binary(Box<Expr>, Token, Box<Expr>),
    Call(String, Vec<Expr>),
}

#[derive(Debug)]
pub enum Stmt {
    Let(String, Expr),
    Decl(String, Type),
    Assign(String, Expr),
    Expr(Expr),
    Return(Expr),
    If(Expr, Vec<Stmt>, Vec<Stmt>),
    While(Expr, Vec<Stmt>),
}

#[derive(Debug)]
pub struct Function {
    pub name: String,
    pub params: Vec<String>,
    pub param_types: Vec<Type>,
    pub return_type: Type,
    pub body: Vec<Stmt>,
}

#[derive(Debug, PartialEq)]
pub enum Value {
    Int(i64),
    Str(String),
    Bool(bool),
    Unit,
    Thread(usize),
    Channel(usize),
    List(Vec<Value>),
    Dict(Vec<(String, Value)>),
}

#[derive(Debug)]
pub struct Program {
    pub imports: Vec<String>,
    pub functions: Vec<Function>,
}

/// An expression as the specifications see it.
pub enum ExprModel {
    Int(i64),
    Str(Seq<char>),
    Bool(bool),
    Var(Seq<char>),
    Binary(Box<ExprModel>, Lexeme, Box<ExprModel>),
    Call(Seq<char>, Seq<ExprModel>),
}

/// A statement as the specifications see it.
pub enum StmtModel {
    Let(Seq<char>, ExprModel),
    Decl(Seq<char>, Type),
    Assign(Seq<char>, ExprModel),
    Expr(ExprModel),
    Return(ExprModel),
    If(ExprModel, Seq<StmtModel>, Seq<StmtModel>),
    While(ExprModel, Seq<StmtModel>),
}

/// A function as the specifications see it.
pub struct FunctionModel {
    pub name: Seq<char>,
    pub params: Seq<Seq<char>>,
    pub param_types: Seq<Type>,
    pub return_type: Type,
    pub body: Seq<StmtModel>,
}

/// A program as the specifications see it.
pub struct ProgramModel {
    pub imports: Seq<Seq<char>>,
    pub functions: Seq<FunctionModel>,
}

pub open spec fn expr_model(e: Expr) -> ExprModel
    decreases e,
{
    match e {
        Expr::Int(n) => ExprModel::Int(n),
        Expr::Str(s) => ExprModel::Str(s@),
        Expr::Bool(b) => ExprModel::Bool(b),
        Expr::Var(s) => ExprModel::Var(s@),
        Expr::Binary(a, op, b) => ExprModel::Binary(Box::new(expr_model(*a)), op@, Box::new(expr_model(*b))),
        Expr::Call(n, args) => ExprModel::Call(n@, exprs_model(args@)),
    }
}

pub open spec fn exprs_model(s: Seq<Expr>) -> Seq<ExprModel>
    decreases s,
{
    if s.len() == 0 {
        seq![]
    } else {
        exprs_model(s.drop_last()).push(expr_model(s.last()))
    }
}

pub open spec fn stmt_model(s: Stmt) -> StmtModel
    decreases s,
{
    match s {
        Stmt::Let(n, e) => StmtModel::Let(n@, expr_model(e)),
        Stmt::Decl(n, t) => StmtModel::Decl(n@, t),
        Stmt::Assign(n, e) => StmtModel::Assign(n@, expr_model(e)),
        Stmt::Expr(e) => StmtModel::Expr(expr_model(e)),
        Stmt::Return(e) => StmtModel::Return(expr_model(e)),
        Stmt::If(c, yes, no) => StmtModel::If(expr_model(c), stmts_model(yes@), stmts_model(no@)),
        Stmt::While(c, body) => StmtModel::While(expr_model(c), stmts_model(body@)),
    }
}

pub open spec fn stmts_model(s: Seq<Stmt>) -> Seq<StmtModel>
    decreases s,
{
    if s.len() == 0 {
        seq![]
    } else {
        stmts_model(s.drop_last()).push(stmt_model(s.last()))
    }
}

pub open spec fn strings_model(s: Seq<String>) -> Seq<Seq<char>> {
    s.map_values(|x: String| x@)
}

impl View for Expr {
    type V = ExprModel;

    open spec fn view(&self) -> ExprModel {
        expr_model(*self)
    }
}

impl View for Stmt {
    type V = StmtModel;

    open spec fn view(&self) -> StmtModel {
        stmt_model(*self)
    }
}

impl View for Function {
    type V = FunctionModel;

    open spec fn view(&self) -> FunctionModel {
        FunctionModel {
            name: self.name@,
            params: strings_model(self.params@),
            param_types: self.param_types@,
            return_type: self.return_type,
            body: stmts_model(self.body@),
        }
    }
}

pub open spec fn functions_model(s: Seq<Function>) -> Seq<FunctionModel> {
    s.map_values(|f: Function| f@)
}

impl View for Program {
    type V = ProgramModel;

    open spec fn view(&self) -> ProgramModel {
        ProgramModel { imports: strings_model(self.imports@), functions: functions_model(self.functions@) }
    }
}

pub proof fn lemma_exprs_model(s: Seq<Expr>)
    ensures
        exprs_model(s).len() == s.len(),
        forall|k: int| 0 <= k < s.len() ==> #[trigger] exprs_model(s)[k] == expr_model(s[k]),
    decreases s.len(),
{
    if s.len() > 0 {
        lemma_exprs_model(s.drop_last());
    }
}

pub proof fn lemma_stmts_model(s: Seq<Stmt>)
    ensures
        stmts_model(s).len() == s.len(),
        forall|k: int| 0 <= k < s.len() ==> #[trigger] stmts_model(s)[k] == stmt_model(s[k]),
    decreases s.len(),
{
    if s.len() > 0 {
        lemma_stmts_model(s.drop_last());
    }
}

pub proof fn lemma_exprs_model_push(s: Seq<Expr>, e: Expr)
    ensures
        exprs_model(s.push(e)) == exprs_model(s).push(expr_model(e)),
{
    assert(s.push(e).drop_last() =~= s);
}

pub proof fn lemma_stmts_model_push(s: Seq<Stmt>, e: Stmt)
    ensures
        stmts_model(s.push(e)) == stmts_model(s).push(stmt_model(e)),
{
    assert(s.push(e).drop_last() =~= s);
}

impl Type {
    /// A copy of the type.
    pub fn duplicate(&self) -> (r: Type)
        ensures
            r == *self,
        decreases self,
    {
        match self {
            Type::Int => Type::Int,
            Type::Str => Type::Str,
            Type::Bool => Type::Bool,
            Type::Unit => Type::Unit,
            Type::Channel => Type::Channel,
            Type::Thread => Type::Thread,
            Type::List => Type::List,
            Type::Dict => Type::Dict,
            Type::Ref(inner) => Type::Ref(Box::new((**inner).duplicate())),
            Type::MutRef(inner) => Type::MutRef(Box::new((**inner).duplicate())),
            Type::Unknown => Type::Unknown,
        }
    }

    /// Whether two types are the same type.
    pub fn same(&self, other: &Type) -> (r: bool)
        ensures
            r == (*self == *other),
        decreases self,
    {
        match (self, other) {
            (Type::Int, Type::Int) => true,
            (Type::Str, Type::Str) => true,
            (Type::Bool, Type::Bool) => true,
            (Type::Unit, Type::Unit) => true,
            (Type::Channel, Type::Channel) => true,
            (Type::Thread, Type::Thread) => true,
            (Type::List, Type::List) => true,
            (Type::Dict, Type::Dict) => true,
            (Type::Unknown, Type::Unknown) => true,
            (Type::Ref(a), Type::Ref(b)) => (**a).same(&**b),
            (Type::MutRef(a), Type::MutRef(b)) => (**a).same(&**b),
            _ => false,
        }
    }
}

impl Clone for Type {
    fn clone(&self) -> (r: Type)
        ensures
            r == *self,
    {
        self.duplicate()
    }
}

impl PartialEq for Type {
    fn eq(&self, other: &Type) -> (r: bool) {
        self.same(other)
    }
}

impl vstd::std_specs::cmp::PartialEqSpecImpl for Type {
    open spec fn obeys_eq_spec() -> bool {
        true
    }

    open spec fn eq_spec(&self, other: &Type) -> bool {
        *self == *other
    }
}

/// A copy of an expression.
pub fn copy_expr(x: &Expr) -> (r: Expr)
    ensures
        r@ == x@,
    decreases x,
{
    match x {
        Expr::Int(n) => Expr::Int(*n),
        Expr::Str(s) => Expr::Str(s.clone()),
        Expr::Bool(b) => Expr::Bool(*b),
        Expr::Var(s) => Expr::Var(s.clone()),
        Expr::Binary(a, op, b) => Expr::Binary(Box::new(copy_expr(&**a)), op.duplicate(), Box::new(copy_expr(&**b))),
        Expr::Call(name, args) => {
            let mut out: Vec<Expr> = Vec::new();
            let mut i: usize = 0;
            assert(exprs_model(out@) =~= exprs_model(args@.take(0)));
            while i < args.len()
                invariant
                    i <= args.len(),
                    *x == Expr::Call(*name, *args),
                    exprs_model(out@) == exprs_model(args@.take(i as int)),
                decreases args.len() - i,
            {
                proof {
                    assert(decreases_to!(*x => (*x)->Call_1));
                    assert(decreases_to!((*x)->Call_1 => (*x)->Call_1@));
                    assert(decreases_to!((*x)->Call_1@ => args@[i as int]));
                }
                let e = copy_expr(&args[i]);
                let ghost before = out@;
                out.push(e);
                proof {
                    lemma_exprs_model_push(before, e);
                    assert(args@.take(i + 1) =~= args@.take(i as int).push(args@[i as int]));
                    lemma_exprs_model_push(args@.take(i as int), args@[i as int]);
                }
                i += 1;
            }
            assert(args@.take(args.len() as int) =~= args@);
            Expr::Call(name.clone(), out)
        },
    }
}

/// A copy of a statement.
pub fn copy_stmt(s: &Stmt) -> (r: Stmt)
    ensures
        r@ == s@,
    decreases s, 0int,
{
    match s {
        Stmt::Let(n, e) => Stmt::Let(n.clone(), copy_expr(e)),
        Stmt::Decl(n, t) => Stmt::Decl(n.clone(), t.duplicate()),
        Stmt::Assign(n, e) => Stmt::Assign(n.clone(), copy_expr(e)),
        Stmt::Expr(e) => Stmt::Expr(copy_expr(e)),
        Stmt::Return(e) => Stmt::Return(copy_expr(e)),
        Stmt::If(c, yes, no) => {
            proof {
                assert(decreases_to!(*s => (*s)->If_1));
                assert(decreases_to!(*s => (*s)->If_2));
            }
            Stmt::If(copy_expr(c), copy_stmts(yes), copy_stmts(no))
        },
        Stmt::While(c, body) => {
            proof {
                assert(decreases_to!(*s => (*s)->While_1));
            }
            Stmt::While(copy_expr(c), copy_stmts(body))
        },
    }
}

/// A copy of a statement list.
pub fn copy_stmts(xs: &Vec<Stmt>) -> (r: Vec<Stmt>)
    ensures
        stmts_model(r@) == stmts_model(xs@),
    decreases xs, 1int,
{
    let mut out: Vec<Stmt> = Vec::new();
    let mut i: usize = 0;
    assert(stmts_model(out@) =~= stmts_model(xs@.take(0)));
    while i < xs.len()
        invariant
            i <= xs.len(),
            stmts_model(out@) == stmts_model(xs@.take(i as int)),
        decreases xs.len() - i,
    {
        proof {
            assert(decreases_to!(*xs => xs@));
            assert(decreases_to!(xs@ => xs@[i as int]));
        }
        let e = copy_stmt(&xs[i]);
        let ghost before = out@;
        out.push(e);
        proof {
            lemma_stmts_model_push(before, e);
            assert(xs@.take(i + 1) =~= xs@.take(i as int).push(xs@[i as int]));
            lemma_stmts_model_push(xs@.take(i as int), xs@[i as int]);
        }
        i += 1;
    }
    assert(xs@.take(xs.len() as int) =~= xs@);
    out
}

fn copy_strings(xs: &Vec<String>) -> (r: Vec<String>)
    ensures
        r@ == xs@,
{
    let mut out: Vec<String> = Vec::new();
    let mut i: usize = 0;
    while i < xs.len()
        invariant
            i <= xs.len(),
            out@ == xs@.take(i as int),
        decreases xs.len() - i,
    {
        out.push(xs[i].clone());
        assert(xs@.take(i + 1) =~= xs@.take(i as int).push(xs@[i as int]));
        i += 1;
    }
    assert(xs@.take(xs.len() as int) =~= xs@);
    out
}

fn copy_types(xs: &Vec<Type>) -> (r: Vec<Type>)
    ensures
        r@ == xs@,
{
    let mut out: Vec<Type> = Vec::new();
    let mut i: usize = 0;
    while i < xs.len()
        invariant
            i <= xs.len(),
            out@ == xs@.take(i as int),
        decreases xs.len() - i,
    {
        out.push(xs[i].duplicate());
        assert(xs@.take(i + 1) =~= xs@.take(i as int).push(xs@[i as int]));
        i += 1;
    }
    assert(xs@.take(xs.len() as int) =~= xs@);
    out
}

/// A copy of a function.
pub fn copy_function(f: &Function) -> (r: Function)
    ensures
        r@ == f@,
{
    Function {
        name: f.name.clone(),
        params: copy_strings(&f.params),
        param_types: copy_types(&f.param_types),
        return_type: f.return_type.duplicate(),
        body: copy_stmts(&f.body),
    }
}

impl Clone for Expr {
    fn clone(&self) -> (r: Self)
        ensures
            r@ == self@,
    {
        copy_expr(self)
    }
}

impl Clone for Stmt {
    fn clone(&self) -> (r: Self)
        ensures
            r@ == self@,
    {
        copy_stmt(self)
    }
}

impl Clone for Function {
    fn clone(&self) -> (r: Self)
        ensures
            r@ == self@,
    {
        copy_function(self)
    }
}

impl Clone for Program {
    fn clone(&self) -> (r: Self)
        ensures
            r@ == self@,
    {
        let mut functions: Vec<Function> = Vec::new();
        let mut i: usize = 0;
        while i < self.functions.len()
            invariant
                i <= self.functions.len(),
                functions@.len() == i,
                forall|k: int| 0 <= k < i ==> #[trigger] functions@[k]@ == self.functions@[k]@,
            decreases self.functions.len() - i,
        {
            functions.push(copy_function(&self.functions[i]));
            i += 1;
        }
        assert(functions_model(functions@) =~= functions_model(self.functions@));
        Program { imports: copy_strings(&self.imports), functions }
    }
}

/// A runtime value as the specifications see it.
pub enum ValueModel {
    Int(i64),
    Str(Seq<char>),
    Bool(bool),
    Unit,
    Thread(usize),
    Channel(usize),
    List(Seq<ValueModel>),
    Dict(Seq<(Seq<char>, ValueModel)>),
}

pub open spec fn value_model(v: Value) -> ValueModel
    decreases v,
{
    match v {
        Value::Int(n) => ValueModel::Int(n),
        Value::Str(s) => ValueModel::Str(s@),
        Value::Bool(b) => ValueModel::Bool(b),
        Value::Unit => ValueModel::Unit,
        Value::Thread(id) => ValueModel::Thread(id),
        Value::Channel(id) => ValueModel::Channel(id),
        Value::List(items) => ValueModel::List(values_model(items@)),
        Value::Dict(items) => ValueModel::Dict(entries_model(items@)),
    }
}

pub open spec fn values_model(s: Seq<Value>) -> Seq<ValueModel>
    decreases s,
{
    if s.len() == 0 {
        seq![]
    } else {
        values_model(s.drop_last()).push(value_model(s.last()))
    }
}

pub open spec fn entries_model(s: Seq<(String, Value)>) -> Seq<(Seq<char>, ValueModel)>
    decreases s,
{
    if s.len() == 0 {
        seq![]
    } else {
        proof {
            assert(decreases_to!(s => s.last()));
        }
        entries_model(s.drop_last()).push((s.last().0@, value_model(s.last().1)))
    }
}

impl View for Value {
    type V = ValueModel;

    open spec fn view(&self) -> ValueModel {
        value_model(*self)
    }
}

/// A copy of a runtime value.
pub fn copy_value(v: &Value) -> (r: Value)
    ensures
        r@ == v@,
    decreases v,
{
    match v {
        Value::Int(n) => Value::Int(*n),
        Value::Str(s) => Value::Str(s.clone()),
        Value::Bool(b) => Value::Bool(*b),
        Value::Unit => Value::Unit,
        Value::Thread(id) => Value::Thread(*id),
        Value::Channel(id) => Value::Channel(*id),
        Value::List(items) => {
            let mut out: Vec<Value> = Vec::new();
            let mut i: usize = 0;
            assert(values_model(out@) =~= values_model(items@.take(0)));
            while i < items.len()
                invariant
                    i <= items.len(),
                    *v == Value::List(*items),
                    values_model(out@) == values_model(items@.take(i as int)),
                decreases items.len() - i,
            {
                proof {
                    assert(decreases_to!(*v => (*v)->List_0));
                    assert(decreases_to!((*v)->List_0 => (*v)->List_0@));
                    assert(decreases_to!((*v)->List_0@ => items@[i as int]));
                }
                let e = copy_value(&items[i]);
                let ghost before = out@;
                out.push(e);
                proof {
                    assert(out@.drop_last() =~= before);
                    assert(items@.take(i + 1).drop_last() =~= items@.take(i as int));
                }
                i += 1;
            }
            assert(items@.take(items.len() as int) =~= items@);
            Value::List(out)
        },
        Value::Dict(items) => {
            let mut out: Vec<(String, Value)> = Vec::new();
            let mut i: usize = 0;
            assert(entries_model(out@) =~= entries_model(items@.take(0)));
            while i < items.len()
                invariant
                    i <= items.len(),
                    *v == Value::Dict(*items),
                    entries_model(out@) == entries_model(items@.take(i as int)),
                decreases items.len() - i,
            {
                proof {
                    assert(decreases_to!(*v => (*v)->Dict_0));
                    assert(decreases_to!((*v)->Dict_0 => (*v)->Dict_0@));
                    assert(decreases_to!((*v)->Dict_0@ => items@[i as int]));
                    assert(decreases_to!(items@[i as int] => items@[i as int].1));
                }
                let e = (items[i].0.clone(), copy_value(&items[i].1));
                let ghost before = out@;
                out.push(e);
                proof {
                    assert(out@.drop_last() =~= before);
                    assert(items@.take(i + 1).drop_last() =~= items@.take(i as int));
                }
                i += 1;
            }
            assert(items@.take(items.len() as int) =~= items@);
            Value::Dict(out)
        },
    }
}

impl Clone for Value {
    fn clone(&self) -> (r: Self)
        ensures
            r@ == self@,
    {
        copy_value(self)
    }
}

} // verus!
