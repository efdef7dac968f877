//! The statement tree that the interpreter runs.
//!
//! A parser outside this library produces the tree; nothing here reads
//! source text except the text of literals, which the interpreter converts
//! when it reaches them.

use vstd::prelude::*;
use std::rc::Rc;

verus! {

/// A literal as the source spelled it.
#[derive(Clone, Debug)]
pub enum Literal {
    Undefined,
    Null,
    True,
    False,
    /// A decimal number, by its source text.
    Number(String),
    /// A number in another radix, by its source text.
    Binary(String),
    /// A string, by its source text with the enclosing quotes.
    String(String),
    /// A regular expression, by its source text.
    RegEx(String),
}

/// A binary operator.
#[derive(Clone, Copy, Debug, PartialEq, Eq, Structural)]
pub enum BinaryOp {
    Add,
    Subtract,
    Multiply,
    Divide,
    Remainder,
    Equal,
    NotEqual,
    Less,
    LessEqual,
    Greater,
    GreaterEqual,
    And,
    Or,
    BitAnd,
    BitOr,
    BitXor,
    ShiftLeft,
    ShiftRight,
    StrictEqual,
    StrictNotEqual,
    Assign,
    /// Any operator that the interpreter does not know.
    Other,
}

/// A unary operator.
#[derive(Clone, Copy, Debug, PartialEq, Eq, Structural)]
pub enum UnaryOp {
    Not,
    Minus,
    Plus,
    BitNot,
    /// Any operator that the interpreter does not know.
    Other,
}

/// The keyword of a declaration.
#[derive(Clone, Copy, Debug, PartialEq, Eq, Structural)]
pub enum DeclarationKind {
    Var,
    Let,
    Const,
}

/// An expression.
#[derive(Debug)]
#[allow(inconsistent_fields)]
pub enum Expression {
    Literal(Literal),
    Identifier(String),
    /// The value of `this` in the innermost scope.
    This,
    Binary { op: BinaryOp, left: Box<Expression>, right: Box<Expression> },
    Unary { op: UnaryOp, operand: Box<Expression> },
    Call { callee: Box<Expression>, args: Vec<Expression> },
    Member { object: Box<Expression>, property: String },
    Function { params: Rc<Vec<String>>, body: Rc<Vec<Statement>> },
    /// A form that the interpreter does not implement, by its name.
    Unsupported(String),
}

/// One name of a declaration, with its initializer.
#[derive(Debug)]
pub struct Declarator {
    pub name: String,
    pub init: Option<Expression>,
}

/// A statement.
#[derive(Debug)]
#[allow(inconsistent_fields)]
pub enum Statement {
    Expression(Expression),
    Declaration { kind: DeclarationKind, declarators: Vec<Declarator> },
    Block(Vec<Statement>),
    If { test: Expression, consequent: Box<Statement>, alternate: Option<Box<Statement>> },
    While { test: Expression, body: Box<Statement> },
    Function { name: String, params: Rc<Vec<String>>, body: Rc<Vec<Statement>> },
    Return(Option<Expression>),
    Empty,
    /// A form that the interpreter does not implement, by its name.
    Unsupported(String),
}

} // verus!
