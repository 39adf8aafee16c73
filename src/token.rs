use vstd::prelude::*;

use crate::number::Number;

verus! {

/// The binary arithmetic operators.
#[derive(Clone, Copy, Debug, PartialEq, Eq, Structural)]
pub enum Operator {
    Plus,
    Minus,
    Multiply,
    Divide,
    Power,
}

#[derive(Clone, Copy, Debug, PartialEq, Eq, Structural)]
pub enum Bracket {
    ParenLeft,
    ParenRight,
    /// Absolute-value bars; evaluation rejects them as unsupported.
    VerticalLine,
}

/// One lexical unit of an expression.
#[derive(Clone, Debug)]
pub enum Token {
    Number(Number),
    Operator(Operator),
    FactorialSign,
    Bracket(Bracket),
    /// The name of a variable or function.
    Id(String),
    Comma,
}

} // verus!
