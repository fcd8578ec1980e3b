//! The abstract syntax tree the parser produces and the compiler consumes.
//!
//! Member access `a.b` never appears here: the parser desugars it into
//! `Index` with a string index.  Numbers carry the encoding of an IEEE-754
//! double.

use vstd::prelude::*;

verus! {

#[derive(Debug, PartialEq)]
pub enum Expression {
    Identifier(Vec<char>),
    /// A numeric literal, as the encoding of an IEEE-754 double.
    Number(u64),
    Str(Vec<char>),
    Boolean(bool),
    Prefix { operator: Vec<char>, right: Box<Expression> },
    Infix { left: Box<Expression>, operator: Vec<char>, right: Box<Expression> },
    Call { function: Box<Expression>, arguments: Vec<Expression> },
    Array(Vec<Expression>),
    Object(Vec<(Vec<char>, Expression)>),
    Index { left: Box<Expression>, index: Box<Expression> },
}

#[derive(Debug, PartialEq)]
pub enum Statement {
    Let { name: Vec<char>, value: Expression },
    Const { name: Vec<char>, value: Expression },
    Return(Option<Expression>),
    Expression(Expression),
    Block(Vec<Statement>),
    If {
        condition: Expression,
        consequence: Box<Statement>,
        alternative: Option<Box<Statement>>,
    },
    Function { name: Vec<char>, params: Vec<Vec<char>>, body: Box<Statement> },
}

#[derive(Debug, PartialEq)]
pub struct Program {
    pub statements: Vec<Statement>,
}

} // verus!
