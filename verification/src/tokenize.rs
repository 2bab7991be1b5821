//! The tokenizer: text to token sequence.
//!
//! The input is scanned left to right, character by character. Whitespace is
//! skipped, parentheses and the four operator characters each become one
//! token, and a digit begins a maximal run of consecutive digits that is
//! consumed greedily into a single [`Token::Number`]. Any other character is
//! an [`Error::InvalidCharacter`]; a digit run whose value does not fit the
//! numeric type is an [`Error::MalformedNumber`]. The output preserves
//! source order and no evaluation or precedence reasoning happens here.

use vstd::prelude::*;
use vstd::string::StrSliceExecFns;

use crate::token::{Error, Op, Token};

verus! {

/// Whitespace that the tokenizer skips.
pub open spec fn is_space_char(c: char) -> bool {
    c == ' ' || c == '\t' || c == '\n' || c == '\r'
}

/// Decimal digits, by code point.
pub open spec fn is_digit_char(c: char) -> bool {
    48 <= c as int <= 57
}

/// Numeric value of one decimal digit.
pub open spec fn digit_value(c: char) -> nat
    recommends
        is_digit_char(c),
{
    (c as int - 48) as nat
}

/// The first position at or after `i` that does not hold a digit: the
/// exclusive end of the maximal digit run starting at `i`.
pub open spec fn digit_run_end(s: Seq<char>, i: int) -> int
    recommends
        0 <= i <= s.len(),
    decreases s.len() - i,
{
    if i < 0 || i >= s.len() || !is_digit_char(s[i]) {
        i
    } else {
        digit_run_end(s, i + 1)
    }
}

/// The value of a digit run, read as a decimal numeral.
pub open spec fn parse_digits(s: Seq<char>) -> nat
    decreases s.len(),
{
    if s.len() == 0 {
        0
    } else {
        parse_digits(s.drop_last()) * 10 + digit_value(s.last())
    }
}

/// The digit run that starts at `i` stays within the text, covers at least
/// the digit at `i` itself, and consists of digits only.
pub proof fn lemma_digit_run_end(s: Seq<char>, i: int)
    requires
        0 <= i <= s.len(),
    ensures
        i <= digit_run_end(s, i) <= s.len(),
        i < s.len() && is_digit_char(s[i]) ==> i + 1 <= digit_run_end(s, i),
        forall|k: int| i <= k < digit_run_end(s, i) ==> is_digit_char(s[k]),
    decreases s.len() - i,
{
    if i < s.len() && is_digit_char(s[i]) {
        lemma_digit_run_end(s, i + 1);
    }
}

/// A digit run ends exactly at the first position that is past the text or
/// does not hold a digit.
pub proof fn lemma_digit_run_end_exact(s: Seq<char>, i: int, j: int)
    requires
        0 <= i <= j <= s.len(),
        forall|k: int| i <= k < j ==> is_digit_char(s[k]),
        j == s.len() || !is_digit_char(s[j]),
    ensures
        digit_run_end(s, i) == j,
    decreases j - i,
{
    if i < j {
        lemma_digit_run_end_exact(s, i + 1, j);
    }
}

/// Reading more digits can only increase the value of the numeral.
pub proof fn lemma_parse_digits_prefix(s: Seq<char>, m: int)
    requires
        0 <= m <= s.len(),
    ensures
        parse_digits(s.take(m)) <= parse_digits(s),
    decreases s.len(),
{
    if m == s.len() {
        assert(s.take(m) =~= s);
    } else {
        lemma_parse_digits_prefix(s.drop_last(), m);
        assert(s.drop_last().take(m) =~= s.take(m));
    }
}

/// The tokenizer, one scanned character (or digit run) per step: `i` is the
/// scan position and `acc` the tokens already produced.
pub open spec fn spec_tokenize_from(s: Seq<char>, i: int, acc: Seq<Token>) -> Result<
    Seq<Token>,
    Error,
>
    recommends
        0 <= i <= s.len(),
    decreases s.len() - i,
        when 0 <= i <= s.len()
        via spec_tokenize_from_decreases
{
    if i >= s.len() {
        Ok(acc)
    } else {
        let c = s[i];
        if is_space_char(c) {
            spec_tokenize_from(s, i + 1, acc)
        } else if c == '(' {
            spec_tokenize_from(s, i + 1, acc.push(Token::LeftParen))
        } else if c == ')' {
            spec_tokenize_from(s, i + 1, acc.push(Token::RightParen))
        } else if c == '+' {
            spec_tokenize_from(s, i + 1, acc.push(Token::Operator(Op::Add)))
        } else if c == '-' {
            spec_tokenize_from(s, i + 1, acc.push(Token::Operator(Op::Subtract)))
        } else if c == '*' {
            spec_tokenize_from(s, i + 1, acc.push(Token::Operator(Op::Multiply)))
        } else if c == '/' {
            spec_tokenize_from(s, i + 1, acc.push(Token::Operator(Op::Divide)))
        } else if is_digit_char(c) {
            let j = digit_run_end(s, i);
            let v = parse_digits(s.subrange(i, j));
            if v > u64::MAX as nat {
                Err(Error::MalformedNumber { pos: i as usize })
            } else {
                spec_tokenize_from(s, j, acc.push(Token::Number(v as u64)))
            }
        } else {
            Err(Error::InvalidCharacter { ch: c, pos: i as usize })
        }
    }
}

#[via_fn]
proof fn spec_tokenize_from_decreases(s: Seq<char>, i: int, acc: Seq<Token>) {
    if 0 <= i < s.len() && is_digit_char(s[i]) {
        lemma_digit_run_end(s, i);
    }
}

/// What tokenizing returns: the scan of the whole text from its start.
pub open spec fn spec_tokenize(s: Seq<char>) -> Result<Seq<Token>, Error> {
    spec_tokenize_from(s, 0, Seq::empty())
}

/// Converts a text into its token sequence, or reports the first invalid
/// character or oversized numeral. The result is exactly what the reference
/// scan [`spec_tokenize`] computes.
pub fn tokenize(text: &str) -> (r: Result<Vec<Token>, Error>)
    ensures
        (match r {
            Ok(ts) => spec_tokenize(text@) == Ok::<Seq<Token>, Error>(ts@),
            Err(e) => spec_tokenize(text@) == Err::<Seq<Token>, Error>(e),
        }),
{
    let ghost target = spec_tokenize(text@);
    let mut acc: Vec<Token> = Vec::new();
    let n = text.unicode_len();
    let mut i: usize = 0;

    while i < n
        invariant
            n == text@.len(),
            i <= n,
            target == spec_tokenize(text@),
            spec_tokenize_from(text@, i as int, acc@) == target,
        decreases n - i,
    {
        let c = text.get_char(i);
        let x = c as u32;
        if c == ' ' || c == '\t' || c == '\n' || c == '\r' {
            i = i + 1;
        } else if c == '(' {
            acc.push(Token::LeftParen);
            i = i + 1;
        } else if c == ')' {
            acc.push(Token::RightParen);
            i = i + 1;
        } else if c == '+' {
            acc.push(Token::Operator(Op::Add));
            i = i + 1;
        } else if c == '-' {
            acc.push(Token::Operator(Op::Subtract));
            i = i + 1;
        } else if c == '*' {
            acc.push(Token::Operator(Op::Multiply));
            i = i + 1;
        } else if c == '/' {
            acc.push(Token::Operator(Op::Divide));
            i = i + 1;
        } else if 48 <= x && x <= 57 {
            let start = i;
            i = i + 1;
            // scan to the end of the maximal digit run
            loop
                invariant
                    n == text@.len(),
                    start < i <= n,
                    is_digit_char(text@[start as int]),
                    forall|m: int| start <= m < i ==> is_digit_char(text@[m]),
                    digit_run_end(text@, start as int) == digit_run_end(text@, i as int),
                ensures
                    start < i <= n,
                    forall|m: int| start <= m < i ==> is_digit_char(text@[m]),
                    digit_run_end(text@, start as int) == i,
                decreases n - i,
            {
                if i == n {
                    break;
                }
                let cc = text.get_char(i);
                let xx = cc as u32;
                if !(48 <= xx && xx <= 57) {
                    break;
                }
                i = i + 1;
            }
            // read the run's value, watching for a numeral too large for u64
            let ghost run = text@.subrange(start as int, i as int);
            let mut value: u64 = 0;
            let mut k = start;
            while k < i
                invariant
                    n == text@.len(),
                    start <= k <= i <= n,
                    run == text@.subrange(start as int, i as int),
                    forall|m: int| start <= m < i ==> is_digit_char(text@[m]),
                    value == parse_digits(text@.subrange(start as int, k as int)),
                    target == spec_tokenize(text@),
                    spec_tokenize_from(text@, start as int, acc@) == target,
                    is_digit_char(text@[start as int]),
                    digit_run_end(text@, start as int) == i,
                decreases i - k,
            {
                let cc = text.get_char(k);
                let d = (cc as u32 - 48) as u64;
                if value > (u64::MAX - d) / 10 {
                    proof {
                        assert(((u64::MAX - d) / 10) * 10 + (u64::MAX - d) % 10 == u64::MAX
                            - d);
                        assert(value * 10 >= ((u64::MAX - d) / 10) * 10 + 10);
                        assert(value * 10 + d > u64::MAX);
                        assert(text@.subrange(start as int, k as int + 1).drop_last()
                            =~= text@.subrange(start as int, k as int));
                        assert(parse_digits(text@.subrange(start as int, k as int + 1)) == value
                            * 10 + d);
                        lemma_parse_digits_prefix(run, k as int + 1 - start);
                        assert(run.take(k as int + 1 - start) =~= text@.subrange(
                            start as int,
                            k as int + 1,
                        ));
                        assert(parse_digits(run) > u64::MAX as nat);
                    }
                    return Err(Error::MalformedNumber { pos: start });
                }
                proof {
                    assert(((u64::MAX - d) / 10) * 10 <= u64::MAX - d);
                    assert(value * 10 + d <= u64::MAX);
                    assert(text@.subrange(start as int, k as int + 1).drop_last() =~= text@.subrange(
                        start as int,
                        k as int,
                    ));
                }
                value = value * 10 + d;
                k = k + 1;
            }
            proof {
                assert(text@.subrange(start as int, k as int) == run);
                assert(parse_digits(run) == value);
                assert(parse_digits(run) <= u64::MAX as nat);
            }
            acc.push(Token::Number(value));
        } else {
            return Err(Error::InvalidCharacter { ch: c, pos: i });
        }
    }
    Ok(acc)
}

} // verus!
