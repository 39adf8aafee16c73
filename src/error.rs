use vstd::prelude::*;

verus! {

/// The ways an evaluation can fail.
#[derive(Clone, Copy, Debug, PartialEq, Eq, Structural)]
pub enum Error {
    /// Division by zero, a factorial outside the non-negative integers, an
    /// exponent that is not an integer, a value that does not fit, or another
    /// input on which an operation is undefined.
    ArithmeticDomain,
    /// An identifier that the environment does not bind.
    UndefinedVariable,
    /// A call site that hands a callable the wrong number of arguments.
    ArityMismatch,
    /// Unbalanced brackets or a stack that runs empty.
    MalformedExpression,
    /// Vertical-line (absolute value) brackets.
    UnsupportedFeature,
}

} // verus!
