use vstd::prelude::*;
use crate::expr::Expr;
use crate::token::Token;

verus! {

/// A statement of the language.
///
/// A `for` loop has no variant of its own: the parser writes it as a block
/// around a `while`.
#[derive(Debug, PartialEq)]
#[allow(inconsistent_fields)]
pub enum Stmt {
    Expression(Expr),
    If { condition: Expr, then_branch: Box<Stmt>, else_branch: Box<Option<Stmt>> },
    Print(Expr),
    Return { keyword: Token, value: Option<Expr> },
    Var { name: Token, initializer: Option<Expr> },
    While { condition: Expr, body: Box<Stmt> },
    Block(Vec<Stmt>),
    Function { name: Token, params: Vec<Token>, body: Vec<Stmt> },
    Class { name: Token, superclass: Option<Expr>, methods: Vec<Stmt> },
}

} // verus!
