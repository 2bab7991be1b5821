//! The postfix evaluator: token sequence in Reverse Polish order to a number.
//!
//! The evaluator folds the sequence over an operand stack: numbers are
//! pushed, an operator pops its right operand first and its left operand
//! second, applies, and pushes the result. After the last token exactly one
//! value must remain; any other count is [`Error::MalformedExpression`],
//! and an operator finding fewer than two operands is
//! [`Error::MissingOperand`].
//!
//! Values are exact rationals with a positive 64-bit denominator, so
//! fractional results come out of division exactly (no rounding ever
//! happens). Two consequences are reported as their own conditions instead
//! of following IEEE float semantics: a zero right operand of division is
//! [`Error::DivisionByZero`], and an intermediate numerator or denominator
//! that no longer fits in 64 bits is [`Error::Overflow`].

use vstd::prelude::*;

use crate::token::{Error, Op, Token};

verus! {

/// An exact rational number. The denominator is kept positive by every
/// operation of this module; numerators and denominators are not reduced.
#[derive(Clone, Copy, Debug, PartialEq, Eq, Structural)]
pub struct Rat {
    pub num: i64,
    pub den: i64,
}

impl View for Rat {
    type V = (int, int);

    open spec fn view(&self) -> (int, int) {
        (self.num as int, self.den as int)
    }
}

impl Rat {
    /// Well-formedness: the denominator is positive.
    pub open spec fn wf(self) -> bool {
        self.den > 0
    }
}

/// Whether a mathematical integer fits the 64-bit signed range.
pub open spec fn i64_fits(x: int) -> bool {
    i64::MIN <= x <= i64::MAX
}

/// Applying one operator to two rationals, numerators first: the exact
/// fraction arithmetic on pairs `(numerator, denominator)`, with every
/// intermediate product checked against the 64-bit range and a division
/// result normalized back to a positive denominator.
pub open spec fn spec_apply(op: Op, l: (int, int), r: (int, int)) -> Result<(int, int), Error> {
    let a = l.0;
    let b = l.1;
    let c = r.0;
    let d = r.1;
    match op {
        Op::Add => {
            if i64_fits(a * d) && i64_fits(b * c) && i64_fits(a * d + b * c) && i64_fits(b * d) {
                Ok((a * d + b * c, b * d))
            } else {
                Err(Error::Overflow)
            }
        },
        Op::Subtract => {
            if i64_fits(a * d) && i64_fits(b * c) && i64_fits(a * d - b * c) && i64_fits(b * d) {
                Ok((a * d - b * c, b * d))
            } else {
                Err(Error::Overflow)
            }
        },
        Op::Multiply => {
            if i64_fits(a * c) && i64_fits(b * d) {
                Ok((a * c, b * d))
            } else {
                Err(Error::Overflow)
            }
        },
        Op::Divide => {
            if c == 0 {
                Err(Error::DivisionByZero)
            } else if i64_fits(a * d) && i64_fits(b * c) {
                if b * c < 0 {
                    if i64_fits(-(a * d)) && i64_fits(-(b * c)) {
                        Ok((-(a * d), -(b * c)))
                    } else {
                        Err(Error::Overflow)
                    }
                } else {
                    Ok((a * d, b * c))
                }
            } else {
                Err(Error::Overflow)
            }
        },
    }
}

/// Executable fraction arithmetic, equal to [`spec_apply`] and keeping the
/// denominator positive.
pub fn apply_op(op: Op, l: Rat, r: Rat) -> (res: Result<Rat, Error>)
    requires
        l.wf(),
        r.wf(),
    ensures
        (match res {
            Ok(v) => v.wf() && spec_apply(op, l@, r@) == Ok::<(int, int), Error>(v@),
            Err(e) => spec_apply(op, l@, r@) == Err::<(int, int), Error>(e),
        }),
{
    match op {
        Op::Add => {
            let ad = match l.num.checked_mul(r.den) {
                Some(v) => v,
                None => return Err(Error::Overflow),
            };
            let bc = match l.den.checked_mul(r.num) {
                Some(v) => v,
                None => return Err(Error::Overflow),
            };
            let n = match ad.checked_add(bc) {
                Some(v) => v,
                None => return Err(Error::Overflow),
            };
            let d = match l.den.checked_mul(r.den) {
                Some(v) => v,
                None => return Err(Error::Overflow),
            };
            proof {
                assert(l.den as int * r.den as int > 0) by (nonlinear_arith)
                    requires
                        l.den > 0,
                        r.den > 0,
                ;
            }
            Ok(Rat { num: n, den: d })
        },
        Op::Subtract => {
            let ad = match l.num.checked_mul(r.den) {
                Some(v) => v,
                None => return Err(Error::Overflow),
            };
            let bc = match l.den.checked_mul(r.num) {
                Some(v) => v,
                None => return Err(Error::Overflow),
            };
            let n = match ad.checked_sub(bc) {
                Some(v) => v,
                None => return Err(Error::Overflow),
            };
            let d = match l.den.checked_mul(r.den) {
                Some(v) => v,
                None => return Err(Error::Overflow),
            };
            proof {
                assert(l.den as int * r.den as int > 0) by (nonlinear_arith)
                    requires
                        l.den > 0,
                        r.den > 0,
                ;
            }
            Ok(Rat { num: n, den: d })
        },
        Op::Multiply => {
            let n = match l.num.checked_mul(r.num) {
                Some(v) => v,
                None => return Err(Error::Overflow),
            };
            let d = match l.den.checked_mul(r.den) {
                Some(v) => v,
                None => return Err(Error::Overflow),
            };
            proof {
                assert(l.den as int * r.den as int > 0) by (nonlinear_arith)
                    requires
                        l.den > 0,
                        r.den > 0,
                ;
            }
            Ok(Rat { num: n, den: d })
        },
        Op::Divide => {
            if r.num == 0 {
                return Err(Error::DivisionByZero);
            }
            let ad = match l.num.checked_mul(r.den) {
                Some(v) => v,
                None => return Err(Error::Overflow),
            };
            let bc = match l.den.checked_mul(r.num) {
                Some(v) => v,
                None => return Err(Error::Overflow),
            };
            if bc < 0 {
                let zero: i64 = 0;
                let n = match zero.checked_sub(ad) {
                    Some(v) => v,
                    None => return Err(Error::Overflow),
                };
                let d = match zero.checked_sub(bc) {
                    Some(v) => v,
                    None => return Err(Error::Overflow),
                };
                Ok(Rat { num: n, den: d })
            } else {
                proof {
                    assert(l.den as int * r.num as int != 0) by (nonlinear_arith)
                        requires
                            l.den > 0,
                            r.num != 0,
                    ;
                }
                Ok(Rat { num: ad, den: bc })
            }
        },
    }
}

/// The operand stacks of the evaluator, viewed as mathematical pairs.
pub open spec fn pairs_of(s: Seq<Rat>) -> Seq<(int, int)> {
    s.map_values(|x: Rat| x@)
}

/// The evaluator, one consumed token per step: `rem` is the unread input
/// and `stack` the operand stack with its top at the end. A parenthesis in
/// the input cannot come from the converter and counts as a malformed
/// expression.
pub open spec fn spec_eval_from(rem: Seq<Token>, stack: Seq<(int, int)>) -> Result<
    (int, int),
    Error,
>
    decreases rem.len(),
{
    if rem.len() == 0 {
        if stack.len() == 1 {
            Ok(stack[0])
        } else {
            Err(Error::MalformedExpression)
        }
    } else {
        match rem[0] {
            Token::Number(v) => {
                if v as int > i64::MAX as int {
                    Err(Error::Overflow)
                } else {
                    spec_eval_from(rem.drop_first(), stack.push((v as int, 1)))
                }
            },
            Token::Operator(op) => {
                if stack.len() < 2 {
                    Err(Error::MissingOperand)
                } else {
                    match spec_apply(op, stack[stack.len() - 2], stack.last()) {
                        Ok(v) => spec_eval_from(
                            rem.drop_first(),
                            stack.drop_last().drop_last().push(v),
                        ),
                        Err(e) => Err(e),
                    }
                }
            },
            _ => Err(Error::MalformedExpression),
        }
    }
}

/// What evaluating a postfix sequence returns: the fold of the whole
/// sequence starting from an empty operand stack.
pub open spec fn spec_evaluate(tokens: Seq<Token>) -> Result<(int, int), Error> {
    spec_eval_from(tokens, Seq::empty())
}

/// Folds a postfix token sequence into a single exact rational, or reports
/// the first stack-discipline, division or range error. The result is
/// exactly what the reference fold [`spec_evaluate`] computes.
pub fn evaluate(tokens: &Vec<Token>) -> (r: Result<Rat, Error>)
    ensures
        (match r {
            Ok(v) => v.wf() && spec_evaluate(tokens@) == Ok::<(int, int), Error>(v@),
            Err(e) => spec_evaluate(tokens@) == Err::<(int, int), Error>(e),
        }),
{
    let ghost target = spec_evaluate(tokens@);
    let mut stack: Vec<Rat> = Vec::new();
    let mut i: usize = 0;

    proof {
        assert(tokens@.skip(0) =~= tokens@);
        assert(pairs_of(stack@) =~= Seq::<(int, int)>::empty());
    }

    while i < tokens.len()
        invariant
            i <= tokens.len(),
            target == spec_evaluate(tokens@),
            forall|k: int| 0 <= k < stack@.len() ==> (#[trigger] stack@[k]).wf(),
            spec_eval_from(tokens@.skip(i as int), pairs_of(stack@)) == target,
        decreases tokens@.len() - i,
    {
        let t = tokens[i];
        proof {
            assert(tokens@.skip(i as int).len() == tokens@.len() - i);
            assert(tokens@.skip(i as int)[0] == tokens@[i as int]);
            assert(tokens@.skip(i as int).drop_first() =~= tokens@.skip(i as int + 1));
        }
        match t {
            Token::Number(v) => {
                if v > i64::MAX as u64 {
                    return Err(Error::Overflow);
                }
                let val = Rat { num: v as i64, den: 1 };
                let ghost old_stack = stack@;
                stack.push(val);
                proof {
                    assert(pairs_of(stack@) =~= pairs_of(old_stack).push(val@));
                }
            },
            Token::Operator(op) => {
                if stack.len() < 2 {
                    return Err(Error::MissingOperand);
                }
                let ghost old_stack = stack@;
                let right = stack.pop().unwrap();
                let left = stack.pop().unwrap();
                proof {
                    assert(pairs_of(old_stack).last() == right@);
                    assert(pairs_of(old_stack)[pairs_of(old_stack).len() - 2] == left@);
                }
                let v = match apply_op(op, left, right) {
                    Ok(v) => v,
                    Err(e) => return Err(e),
                };
                stack.push(v);
                proof {
                    assert(pairs_of(stack@) =~= pairs_of(old_stack).drop_last().drop_last().push(
                        v@,
                    ));
                }
            },
            _ => {
                return Err(Error::MalformedExpression);
            },
        }
        i = i + 1;
    }

    proof {
        assert(tokens@.skip(i as int) =~= Seq::<Token>::empty());
    }
    if stack.len() == 1 {
        let v = stack.pop().unwrap();
        proof {
            assert(pairs_of(stack@.push(v))[0] == v@);
        }
        Ok(v)
    } else {
        Err(Error::MalformedExpression)
    }
}

/// The postfix order produced for two operators in sequence evaluates the
/// left pair first: folding `a b op1 c op2` applies `op1` to `a` and `b`
/// and only then `op2` to that result and `c`.
pub proof fn lemma_postfix_pair_evaluates_left_first(a: u64, b: u64, c: u64, op1: Op, op2: Op)
    requires
        a <= i64::MAX as u64,
        b <= i64::MAX as u64,
        c <= i64::MAX as u64,
    ensures
        spec_evaluate(
            seq![
                Token::Number(a),
                Token::Number(b),
                Token::Operator(op1),
                Token::Number(c),
                Token::Operator(op2),
            ],
        ) == (match spec_apply(op1, (a as int, 1), (b as int, 1)) {
            Ok(v) => spec_apply(op2, v, (c as int, 1)),
            Err(e) => Err(e),
        }),
{
    let ta = Token::Number(a);
    let tb = Token::Number(b);
    let tc = Token::Number(c);
    let t1 = Token::Operator(op1);
    let t2 = Token::Operator(op2);
    let e = Seq::<(int, int)>::empty();
    let pa = (a as int, 1int);
    let pb = (b as int, 1int);
    let pc = (c as int, 1int);
    let r0 = seq![ta, tb, t1, tc, t2];
    let r1 = seq![tb, t1, tc, t2];
    let r2 = seq![t1, tc, t2];
    let r3 = seq![tc, t2];
    let r4 = seq![t2];
    assert(r0.drop_first() =~= r1);
    assert(r1.drop_first() =~= r2);
    assert(r2.drop_first() =~= r3);
    assert(r3.drop_first() =~= r4);
    assert(r4.drop_first() =~= Seq::<Token>::empty());
    assert(e.push(pa) =~= seq![pa]);
    assert(seq![pa].push(pb) =~= seq![pa, pb]);
    assert(spec_eval_from(r0, e) == spec_eval_from(r1, seq![pa]));
    assert(spec_eval_from(r1, seq![pa]) == spec_eval_from(r2, seq![pa, pb]));
    assert(seq![pa, pb][0] == pa);
    assert(seq![pa, pb].last() == pb);
    match spec_apply(op1, pa, pb) {
        Ok(v) => {
            assert(seq![pa, pb].drop_last().drop_last().push(v) =~= seq![v]);
            assert(spec_eval_from(r2, seq![pa, pb]) == spec_eval_from(r3, seq![v]));
            assert(seq![v].push(pc) =~= seq![v, pc]);
            assert(spec_eval_from(r3, seq![v]) == spec_eval_from(r4, seq![v, pc]));
            assert(seq![v, pc][0] == v);
            assert(seq![v, pc].last() == pc);
            match spec_apply(op2, v, pc) {
                Ok(w) => {
                    assert(seq![v, pc].drop_last().drop_last().push(w) =~= seq![w]);
                    assert(spec_eval_from(r4, seq![v, pc]) == spec_eval_from(
                        Seq::<Token>::empty(),
                        seq![w],
                    ));
                    assert(spec_eval_from(Seq::<Token>::empty(), seq![w]) == Ok::<
                        (int, int),
                        Error,
                    >(w));
                },
                Err(_) => {},
            }
        },
        Err(_) => {},
    }
}

} // verus!
