//! A verified arithmetic-expression calculator.
//!
//! Expressions are plain text with unsigned decimal literals, the four
//! binary operators `+ - * /`, and parentheses for grouping. Evaluation is
//! a linear pipeline of three pure stages — tokenization, infix-to-postfix
//! conversion by the shunting-yard algorithm, and postfix evaluation over an
//! operand stack — each specified against its own reference machine.
//! Results are exact rationals, so standard precedence, left associativity
//! and grouping are all captured without rounding; a host that wants a
//! float divides the numerator by the denominator.

pub mod eval;
pub mod postfix;
pub mod print;
pub mod token;
pub mod tokenize;

use vstd::prelude::*;

verus! {

/// What evaluating an expression text returns: the three reference
/// machines chained, each stage failing fast with its first error.
pub open spec fn spec_evaluate_expression(s: Seq<char>) -> Result<(int, int), token::Error> {
    match tokenize::spec_tokenize(s) {
        Ok(ts) => match postfix::spec_to_postfix(ts) {
            Ok(p) => eval::spec_evaluate(p),
            Err(e) => Err(e),
        },
        Err(e) => Err(e),
    }
}

/// Evaluates an arithmetic expression: tokenizes the text, converts the
/// tokens to postfix order, and folds the postfix sequence into one exact
/// rational. The result is exactly what [`spec_evaluate_expression`] says,
/// and a returned value always has a positive denominator.
pub fn evaluate_expression(text: &str) -> (r: Result<eval::Rat, token::Error>)
    ensures
        (match r {
            Ok(v) => v.wf() && spec_evaluate_expression(text@) == Ok::<(int, int), token::Error>(
                v@,
            ),
            Err(e) => spec_evaluate_expression(text@) == Err::<(int, int), token::Error>(e),
        }),
{
    let tokens = match tokenize::tokenize(text) {
        Ok(ts) => ts,
        Err(e) => return Err(e),
    };
    let postfix_tokens = match postfix::to_postfix(&tokens) {
        Ok(p) => p,
        Err(e) => return Err(e),
    };
    eval::evaluate(&postfix_tokens)
}

} // verus!
