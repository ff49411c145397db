//! The expression half of the abstract syntax tree. Each node owns its
//! children exclusively, so an expression is a strict tree; `operator` and
//! `name` fields retain the originating token for line-accurate errors.

use vstd::prelude::*;

use crate::scanner::token::{LiteralType, Token};

verus! {

pub enum Expr {
    Binary(Binary),
    Unary(Unary),
    Literal(Literal),
    Grouping(Grouping),
    Variable(Variable),
    Assign(Assign),
}

pub struct Binary {
    pub operator: Token,
    pub left: Box<Expr>,
    pub right: Box<Expr>,
}

pub struct Assign {
    pub name: Token,
    pub value: Box<Expr>,
}

pub struct Unary {
    pub operator: Token,
    pub right: Box<Expr>,
}

pub struct Literal {
    pub value: LiteralType,
}

pub struct Grouping {
    pub expression: Box<Expr>,
}

pub struct Variable {
    pub name: Token,
}

} // verus!
