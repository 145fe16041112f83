use vstd::prelude::*;
use crate::token::{Literal, Token};

verus! {

/// An expression of the language.
#[derive(Debug, PartialEq)]
#[allow(inconsistent_fields)]
pub enum Expr {
    Assign { name: Token, value: Box<Expr> },
    Binary { left: Box<Expr>, operator: Token, right: Box<Expr> },
    Call { callee: Box<Expr>, paren: Token, arguments: Vec<Expr> },
    Get { object: Box<Expr>, name: Token },
    Grouping { expr: Box<Expr> },
    Literal { value: Literal },
    Variable { name: Token },
    Logical { left: Box<Expr>, operator: Token, right: Box<Expr> },
    SetField { object: Box<Expr>, name: Token, value: Box<Expr> },
    Super { keyword: Token, method: Token },
    This { keyword: Token },
    Unary { operator: Token, right: Box<Expr> },
}

} // verus!
