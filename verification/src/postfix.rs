//! Infix-to-postfix conversion with the shunting-yard algorithm.
//!
//! The converter walks the infix token sequence once, keeping an operator
//! stack that only ever holds operators and open parentheses. Numbers go
//! straight to the output; an operator first flushes every stacked operator
//! of precedence greater than or equal to its own (the left-associative
//! tie-break); a close parenthesis flushes down to the matching open one.
//! Unmatched parentheses, in either direction, are reported as
//! [`Error::UnbalancedParentheses`].

use vstd::prelude::*;

use crate::token::{Error, Op, Token, prec, spec_prec};

verus! {

/// One walk of the shunting-yard machine: `rem` is the unread input,
/// `stack` the operator stack with its top at the end, `out` the postfix
/// output produced so far. Each recursive call performs exactly one push,
/// pop or input step, so this definition doubles as the reference
/// description of the algorithm.
pub open spec fn spec_shunt(rem: Seq<Token>, stack: Seq<Token>, out: Seq<Token>) -> Result<
    Seq<Token>,
    Error,
>
    decreases rem.len(), stack.len(),
{
    if rem.len() == 0 {
        if stack.len() == 0 {
            Ok(out)
        } else if stack.last() is LeftParen {
            Err(Error::UnbalancedParentheses)
        } else {
            spec_shunt(rem, stack.drop_last(), out.push(stack.last()))
        }
    } else {
        let t = rem[0];
        match t {
            Token::Number(_) => spec_shunt(rem.drop_first(), stack, out.push(t)),
            Token::LeftParen => spec_shunt(rem.drop_first(), stack.push(t), out),
            Token::RightParen => {
                if stack.len() == 0 {
                    Err(Error::UnbalancedParentheses)
                } else if stack.last() is LeftParen {
                    spec_shunt(rem.drop_first(), stack.drop_last(), out)
                } else {
                    spec_shunt(rem, stack.drop_last(), out.push(stack.last()))
                }
            },
            Token::Operator(op) => {
                if stack.len() > 0 && (stack.last() matches Token::Operator(top) && spec_prec(top)
                    >= spec_prec(op)) {
                    spec_shunt(rem, stack.drop_last(), out.push(stack.last()))
                } else {
                    spec_shunt(rem.drop_first(), stack.push(t), out)
                }
            },
        }
    }
}

/// What infix-to-postfix conversion returns: the shunting-yard machine run
/// from the whole input with empty stack and empty output.
pub open spec fn spec_to_postfix(tokens: Seq<Token>) -> Result<Seq<Token>, Error> {
    spec_shunt(tokens, Seq::empty(), Seq::empty())
}

/// Converts an infix token sequence to the equivalent postfix (Reverse
/// Polish) sequence, or reports `UnbalancedParentheses` when parenthesis
/// nesting cannot be resolved. The result is exactly what the reference
/// machine [`spec_to_postfix`] computes.
pub fn to_postfix(tokens: &Vec<Token>) -> (r: Result<Vec<Token>, Error>)
    ensures
        (match r {
            Ok(p) => spec_to_postfix(tokens@) == Ok::<Seq<Token>, Error>(p@),
            Err(e) => spec_to_postfix(tokens@) == Err::<Seq<Token>, Error>(e),
        }),
{
    let ghost target = spec_to_postfix(tokens@);
    let mut out: Vec<Token> = Vec::new();
    let mut stack: Vec<Token> = Vec::new();
    let mut i: usize = 0;

    proof {
        assert(tokens@.skip(0) =~= tokens@);
    }

    while i < tokens.len()
        invariant
            i <= tokens.len(),
            target == spec_to_postfix(tokens@),
            spec_shunt(tokens@.skip(i as int), stack@, out@) == target,
        decreases tokens@.len() - i,
    {
        let t = tokens[i];
        proof {
            assert(tokens@.skip(i as int).len() == tokens@.len() - i);
            assert(tokens@.skip(i as int)[0] == tokens@[i as int]);
            assert(tokens@.skip(i as int).drop_first() =~= tokens@.skip(i as int + 1));
        }
        match t {
            Token::Number(_) => {
                out.push(t);
            },
            Token::LeftParen => {
                stack.push(t);
            },
            Token::RightParen => {
                loop
                    invariant_except_break
                        spec_shunt(tokens@.skip(i as int), stack@, out@) == target,
                    invariant
                        i < tokens.len(),
                        target == spec_to_postfix(tokens@),
                        tokens@[i as int] == Token::RightParen,
                    ensures
                        spec_shunt(tokens@.skip(i as int + 1), stack@, out@) == target,
                    decreases stack@.len(),
                {
                    proof {
                        assert(tokens@.skip(i as int).len() == tokens@.len() - i);
                        assert(tokens@.skip(i as int)[0] == tokens@[i as int]);
                        assert(tokens@.skip(i as int).drop_first() =~= tokens@.skip(
                            i as int + 1,
                        ));
                    }
                    if stack.len() == 0 {
                        return Err(Error::UnbalancedParentheses);
                    }
                    let top = stack.pop().unwrap();
                    if let Token::LeftParen = top {
                        break;
                    }
                    out.push(top);
                }
            },
            Token::Operator(op) => {
                loop
                    invariant_except_break
                        spec_shunt(tokens@.skip(i as int), stack@, out@) == target,
                    invariant
                        i < tokens.len(),
                        target == spec_to_postfix(tokens@),
                        tokens@[i as int] == Token::Operator(op),
                        t == Token::Operator(op),
                    ensures
                        spec_shunt(tokens@.skip(i as int + 1), stack@, out@) == target,
                    decreases stack@.len(),
                {
                    proof {
                        assert(tokens@.skip(i as int).len() == tokens@.len() - i);
                        assert(tokens@.skip(i as int)[0] == tokens@[i as int]);
                        assert(tokens@.skip(i as int).drop_first() =~= tokens@.skip(
                            i as int + 1,
                        ));
                    }
                    let should_pop = if stack.len() == 0 {
                        false
                    } else {
                        match stack[stack.len() - 1] {
                            Token::Operator(top_op) => prec(top_op) >= prec(op),
                            _ => false,
                        }
                    };
                    if should_pop {
                        let top = stack.pop().unwrap();
                        out.push(top);
                    } else {
                        stack.push(t);
                        break;
                    }
                }
            },
        }
        i = i + 1;
    }

    proof {
        assert(tokens@.skip(i as int) =~= Seq::<Token>::empty());
    }
    while stack.len() > 0
        invariant
            target == spec_to_postfix(tokens@),
            spec_shunt(Seq::empty(), stack@, out@) == target,
        decreases stack@.len(),
    {
        let top = stack.pop().unwrap();
        if let Token::LeftParen = top {
            return Err(Error::UnbalancedParentheses);
        }
        out.push(top);
    }
    Ok(out)
}

/// The machine's operator stack only ever holds operators and open
/// parentheses, and everything it emits is a number or an operator; so a
/// successful conversion never leaks a parenthesis into its output.
proof fn lemma_shunt_output_clean(rem: Seq<Token>, stack: Seq<Token>, out: Seq<Token>, p: Seq<Token>)
    requires
        forall|k: int|
            0 <= k < stack.len() ==> (#[trigger] stack[k] is Operator || stack[k] is LeftParen),
        forall|k: int| 0 <= k < out.len() ==> (#[trigger] out[k] is Number || out[k] is Operator),
        spec_shunt(rem, stack, out) == Ok::<Seq<Token>, Error>(p),
    ensures
        forall|k: int| 0 <= k < p.len() ==> (#[trigger] p[k] is Number || p[k] is Operator),
    decreases rem.len(), stack.len(),
{
    if rem.len() == 0 {
        if stack.len() == 0 {
        } else if stack.last() is LeftParen {
        } else {
            lemma_shunt_output_clean(rem, stack.drop_last(), out.push(stack.last()), p);
        }
    } else {
        let t = rem[0];
        match t {
            Token::Number(_) => {
                lemma_shunt_output_clean(rem.drop_first(), stack, out.push(t), p);
            },
            Token::LeftParen => {
                lemma_shunt_output_clean(rem.drop_first(), stack.push(t), out, p);
            },
            Token::RightParen => {
                if stack.len() == 0 {
                } else if stack.last() is LeftParen {
                    lemma_shunt_output_clean(rem.drop_first(), stack.drop_last(), out, p);
                } else {
                    lemma_shunt_output_clean(rem, stack.drop_last(), out.push(stack.last()), p);
                }
            },
            Token::Operator(op) => {
                if stack.len() > 0 && (stack.last() matches Token::Operator(top) && spec_prec(top)
                    >= spec_prec(op)) {
                    lemma_shunt_output_clean(rem, stack.drop_last(), out.push(stack.last()), p);
                } else {
                    lemma_shunt_output_clean(rem.drop_first(), stack.push(t), out, p);
                }
            },
        }
    }
}

/// A successful conversion emits numbers and operators only: the
/// parentheses of the input are matched and discarded, never leaked into
/// the postfix output.
pub proof fn lemma_postfix_no_parens(ts: Seq<Token>, p: Seq<Token>)
    requires
        spec_to_postfix(ts) == Ok::<Seq<Token>, Error>(p),
    ensures
        forall|k: int| 0 <= k < p.len() ==> (#[trigger] p[k] is Number || p[k] is Operator),
{
    lemma_shunt_output_clean(ts, Seq::empty(), Seq::empty(), p);
}

/// Left associativity of the conversion: two operators of equal precedence
/// applied in sequence, with no parentheses, convert so that the first
/// operator is emitted before the second — the postfix order evaluates the
/// left pair first.
pub proof fn lemma_equal_precedence_left_assoc(a: u64, b: u64, c: u64, op1: Op, op2: Op)
    requires
        spec_prec(op1) == spec_prec(op2),
    ensures
        spec_to_postfix(
            seq![
                Token::Number(a),
                Token::Operator(op1),
                Token::Number(b),
                Token::Operator(op2),
                Token::Number(c),
            ],
        ) == Ok::<Seq<Token>, Error>(
            seq![
                Token::Number(a),
                Token::Number(b),
                Token::Operator(op1),
                Token::Number(c),
                Token::Operator(op2),
            ],
        ),
{
    let ta = Token::Number(a);
    let tb = Token::Number(b);
    let tc = Token::Number(c);
    let t1 = Token::Operator(op1);
    let t2 = Token::Operator(op2);
    let e = Seq::<Token>::empty();
    let r0 = seq![ta, t1, tb, t2, tc];
    let r1 = seq![t1, tb, t2, tc];
    let r2 = seq![tb, t2, tc];
    let r3 = seq![t2, tc];
    let r4 = seq![tc];
    assert(r0.drop_first() =~= r1);
    assert(r1.drop_first() =~= r2);
    assert(r2.drop_first() =~= r3);
    assert(r3.drop_first() =~= r4);
    assert(r4.drop_first() =~= e);
    assert(e.push(ta) =~= seq![ta]);
    assert(e.push(t1) =~= seq![t1]);
    assert(seq![ta].push(tb) =~= seq![ta, tb]);
    assert(seq![t1].drop_last() =~= e);
    assert(seq![ta, tb].push(t1) =~= seq![ta, tb, t1]);
    assert(e.push(t2) =~= seq![t2]);
    assert(seq![ta, tb, t1].push(tc) =~= seq![ta, tb, t1, tc]);
    assert(seq![t2].drop_last() =~= e);
    assert(seq![ta, tb, t1, tc].push(t2) =~= seq![ta, tb, t1, tc, t2]);
    assert(spec_shunt(r0, e, e) == spec_shunt(r1, e, seq![ta]));
    assert(spec_shunt(r1, e, seq![ta]) == spec_shunt(r2, seq![t1], seq![ta]));
    assert(spec_shunt(r2, seq![t1], seq![ta]) == spec_shunt(r3, seq![t1], seq![ta, tb]));
    assert(spec_shunt(r3, seq![t1], seq![ta, tb]) == spec_shunt(r3, e, seq![ta, tb, t1]));
    assert(spec_shunt(r3, e, seq![ta, tb, t1]) == spec_shunt(r4, seq![t2], seq![ta, tb, t1]));
    assert(spec_shunt(r4, seq![t2], seq![ta, tb, t1]) == spec_shunt(
        e,
        seq![t2],
        seq![ta, tb, t1, tc],
    ));
    assert(spec_shunt(e, seq![t2], seq![ta, tb, t1, tc]) == spec_shunt(
        e,
        e,
        seq![ta, tb, t1, tc, t2],
    ));
    assert(spec_shunt(e, e, seq![ta, tb, t1, tc, t2]) == Ok::<Seq<Token>, Error>(
        seq![ta, tb, t1, tc, t2],
    ));
}

} // verus!
