//! Lexical tokens of the expression language, operator precedence, and the
//! error taxonomy shared by the tokenizer, the converter and the evaluator.

use vstd::prelude::*;

verus! {

/// The four binary operators of the expression language.
#[derive(Clone, Copy, Debug, PartialEq, Eq, Structural)]
pub enum Op {
    Add,
    Subtract,
    Multiply,
    Divide,
}

/// A lexical token: a numeric literal (a run of decimal digits), an operator,
/// or a grouping parenthesis. Numeric literals are unsigned integers; the
/// evaluator produces exact rationals, so fractional results come only from
/// division.
#[derive(Clone, Copy, Debug, PartialEq, Eq, Structural)]
pub enum Token {
    Number(u64),
    Operator(Op),
    LeftParen,
    RightParen,
}

/// Everything that can go wrong along the pipeline. Each stage fails fast
/// with the first error it meets and no stage attempts recovery.
///
/// `DivisionByZero` is reported as its own condition rather than following
/// IEEE float semantics: the evaluator computes exact rationals, which have
/// no infinity to return. `Overflow` is the machine limit of that choice:
/// an intermediate numerator or denominator no longer fits in 64 bits.
#[derive(Clone, Copy, Debug, PartialEq, Eq, Structural)]
pub enum Error {
    /// A character outside the recognized set, with the offending character
    /// and its position (in characters) in the input.
    InvalidCharacter { ch: char, pos: usize },
    /// A digit run whose value does not fit the numeric type, starting at
    /// the given position.
    MalformedNumber { pos: usize },
    /// An unmatched `(` or `)` discovered during infix-to-postfix conversion.
    UnbalancedParentheses,
    /// An operator reached the evaluator with fewer than two stacked operands.
    MissingOperand,
    /// The operand stack did not hold exactly one value after evaluation.
    MalformedExpression,
    /// The right operand of a division was zero.
    DivisionByZero,
    /// An intermediate numerator or denominator left the 64-bit range.
    Overflow,
}

/// Binding strength of an operator: multiplication and division bind
/// tighter than addition and subtraction. Parentheses are not operators
/// and have no precedence.
pub open spec fn spec_prec(op: Op) -> nat {
    match op {
        Op::Multiply | Op::Divide => 2,
        Op::Add | Op::Subtract => 1,
    }
}

/// Executable precedence table, equal to [`spec_prec`].
pub fn prec(op: Op) -> (p: u8)
    ensures
        p == spec_prec(op),
{
    match op {
        Op::Multiply | Op::Divide => 2,
        Op::Add | Op::Subtract => 1,
    }
}

} // verus!
