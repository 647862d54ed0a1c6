//! A transpiler from symbolic expressions to calls into a small run-time
//! library.
//!
//! A reader hands over statements ([`parse::Statement`]) over data
//! ([`data::LispDatum`]). [`ast::ASTNode::from`] builds the syntax tree from
//! them, and a visitor ([`ast::ASTVisitor`]) walks the tree;
//! [`transpile::TranspilationVisitor`] renders it as the text of a program,
//! and [`transpile::transpile`] does all of it in one pass.
//!
//! Each type has a mathematical model (`Datum`, `Sexp`, `Ast`), which is its
//! view; contracts are stated over these models.

pub mod ast;
pub mod data;
pub mod decimal;
pub mod parse;
pub mod transpile;
