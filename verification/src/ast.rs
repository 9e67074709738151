//! The abstract syntax tree: expressions, statements, and their
//! spec-level models.
//!
//! A numeric literal is kept as its matched text (separators dropped), so
//! decimals lose nothing; evaluation is out of scope and callers convert
//! the text when they need a machine number. Each `Binary` node owns its
//! two sub-expressions: the tree is strict, never shared.

use vstd::prelude::*;

verus! {

/// A binary arithmetic operator.
#[derive(Clone, Copy, PartialEq, Eq, Structural, Debug)]
pub enum BinaryOp {
    Plus,
    Minus,
    Multiply,
    Divide,
}

/// An expression: a numeric literal, or a binary operation over two owned
/// sub-expressions.
#[derive(Debug)]
pub enum Expression {
    Number(String),
    Binary(Box<Expression>, BinaryOp, Box<Expression>),
}

/// The spec-level shape of an expression, with literal text as a character
/// sequence.
pub enum ExpressionModel {
    Number(Seq<char>),
    Binary(Box<ExpressionModel>, BinaryOp, Box<ExpressionModel>),
}

impl Expression {
    /// The mathematical value of this tree.
    pub open spec fn model(&self) -> ExpressionModel
        decreases self,
    {
        match self {
            Expression::Number(literal) => ExpressionModel::Number(literal@),
            Expression::Binary(left, op, right) => ExpressionModel::Binary(
                Box::new((**left).model()),
                *op,
                Box::new((**right).model()),
            ),
        }
    }
}

/// A statement: currently only a `let` binding of a name to an initializing
/// expression.
#[derive(Debug)]
pub enum Statement {
    Let { name: String, initial: Expression },
}

/// The spec-level shape of a statement.
pub enum StatementModel {
    Let { name: Seq<char>, initial: ExpressionModel },
}

impl Statement {
    /// The mathematical value of this statement.
    pub open spec fn model(&self) -> StatementModel {
        match self {
            Statement::Let { name, initial } => StatementModel::Let {
                name: name@,
                initial: initial.model(),
            },
        }
    }
}

/// A program: the statements in declaration order.
pub type Program = Vec<Statement>;

} // verus!
