//! S+N++ front end: lexer, parser, static checks, package manifests and
//! the remote registry index format, with their behaviour stated and proved.

pub mod ast;
pub mod cli;
pub mod json;
pub mod lexer;
pub mod package;
pub mod parser;
pub mod registry;
pub mod stdlib;
pub mod table;
pub mod text;
pub mod typecheck;
pub mod version;

pub use ast::{Expr, Function, Program, Stmt, Type, Value};
pub use lexer::{lex, Token};
