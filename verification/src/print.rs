//! Printing token sequences back to text, and the round trip through the
//! tokenizer.
//!
//! A token sequence is printed as the tokens' texts separated by single
//! spaces, numbers as plain decimal numerals. Because a space separates any
//! two tokens and every printed numeral is a maximal digit run, tokenizing
//! the printed text gives back exactly the sequence that was printed: the
//! round-trip law [`lemma_print_tokenize_round_trip`] below. In particular,
//! re-tokenizing the printed postfix form of a conversion result and
//! re-evaluating it yields the same value as evaluating that result
//! directly ([`lemma_reprint_evaluates_alike`]).

use vstd::prelude::*;
use vstd::string::StringExecFns;

use crate::eval;
use crate::postfix;
use crate::token::{Error, Op, Token};
use crate::tokenize::{
    digit_value, is_digit_char, lemma_digit_run_end_exact, parse_digits, spec_tokenize,
    spec_tokenize_from,
};

verus! {

/// The character of one decimal digit value.
pub open spec fn char_of_digit(d: nat) -> char
    recommends
        d < 10,
{
    if d == 0 {
        '0'
    } else if d == 1 {
        '1'
    } else if d == 2 {
        '2'
    } else if d == 3 {
        '3'
    } else if d == 4 {
        '4'
    } else if d == 5 {
        '5'
    } else if d == 6 {
        '6'
    } else if d == 7 {
        '7'
    } else if d == 8 {
        '8'
    } else {
        '9'
    }
}

/// The decimal numeral of `n`, most significant digit first.
pub open spec fn dec_chars(n: nat) -> Seq<char>
    decreases n,
{
    if n < 10 {
        seq![char_of_digit(n)]
    } else {
        dec_chars(n / 10).push(char_of_digit(n % 10))
    }
}

/// Digit characters and digit values invert each other.
pub proof fn lemma_char_of_digit(d: nat)
    requires
        d < 10,
    ensures
        is_digit_char(char_of_digit(d)),
        digit_value(char_of_digit(d)) == d,
{
}

/// A printed numeral is never empty and consists of digits only.
pub proof fn lemma_dec_chars_digits(n: nat)
    ensures
        dec_chars(n).len() >= 1,
        forall|k: int| 0 <= k < dec_chars(n).len() ==> is_digit_char(#[trigger] dec_chars(n)[k]),
    decreases n,
{
    if n < 10 {
        lemma_char_of_digit(n);
    } else {
        lemma_dec_chars_digits(n / 10);
        lemma_char_of_digit(n % 10);
    }
}

/// Parsing a printed numeral gives back its value.
pub proof fn lemma_dec_chars_parse(n: nat)
    ensures
        parse_digits(dec_chars(n)) == n,
    decreases n,
{
    if n < 10 {
        lemma_char_of_digit(n);
        assert(dec_chars(n).drop_last() =~= Seq::<char>::empty());
        assert(parse_digits(Seq::<char>::empty()) == 0);
    } else {
        lemma_dec_chars_parse(n / 10);
        lemma_char_of_digit(n % 10);
        assert(dec_chars(n).drop_last() =~= dec_chars(n / 10));
        vstd::arithmetic::div_mod::lemma_fundamental_div_mod(n as int, 10);
    }
}

/// The operator characters.
pub open spec fn op_char(op: Op) -> char {
    match op {
        Op::Add => '+',
        Op::Subtract => '-',
        Op::Multiply => '*',
        Op::Divide => '/',
    }
}

/// The text of one token.
pub open spec fn token_chars(t: Token) -> Seq<char> {
    match t {
        Token::Number(v) => dec_chars(v as nat),
        Token::Operator(op) => seq![op_char(op)],
        Token::LeftParen => seq!['('],
        Token::RightParen => seq![')'],
    }
}

/// The printed form of a token sequence: the tokens' texts separated by
/// single spaces.
pub open spec fn tokens_text(ts: Seq<Token>) -> Seq<char>
    decreases ts.len(), 0int,
{
    if ts.len() == 0 {
        Seq::empty()
    } else {
        token_chars(ts[0]) + tail_text(ts.drop_first())
    }
}

/// The printed form of every token after the first: a space before each.
pub open spec fn tail_text(ts: Seq<Token>) -> Seq<char>
    decreases ts.len(), 1int,
{
    if ts.len() == 0 {
        Seq::empty()
    } else {
        seq![' '] + tokens_text(ts)
    }
}

/// Printing one more token appends a separating space (except at the very
/// front) and the token's text.
pub proof fn lemma_tokens_text_push(ts: Seq<Token>, t: Token)
    ensures
        tokens_text(ts.push(t)) == if ts.len() == 0 {
            token_chars(t)
        } else {
            tokens_text(ts) + seq![' '] + token_chars(t)
        },
    decreases ts.len(),
{
    if ts.len() == 0 {
        assert(ts.push(t).drop_first() =~= Seq::<Token>::empty());
        assert(token_chars(t) + Seq::<char>::empty() =~= token_chars(t));
    } else {
        lemma_tokens_text_push(ts.drop_first(), t);
        assert(ts.push(t).drop_first() =~= ts.drop_first().push(t));
        assert(tokens_text(ts.push(t)) =~= tokens_text(ts) + seq![' '] + token_chars(t));
    }
}

/// Appends the character of one digit value.
fn append_digit(s: &mut String, d: u64)
    requires
        d < 10,
    ensures
        final(s)@ == old(s)@ + seq![char_of_digit(d as nat)],
{
    let piece: &str = if d == 0 {
        "0"
    } else if d == 1 {
        "1"
    } else if d == 2 {
        "2"
    } else if d == 3 {
        "3"
    } else if d == 4 {
        "4"
    } else if d == 5 {
        "5"
    } else if d == 6 {
        "6"
    } else if d == 7 {
        "7"
    } else if d == 8 {
        "8"
    } else {
        "9"
    };
    proof {
        reveal_strlit("0");
        reveal_strlit("1");
        reveal_strlit("2");
        reveal_strlit("3");
        reveal_strlit("4");
        reveal_strlit("5");
        reveal_strlit("6");
        reveal_strlit("7");
        reveal_strlit("8");
        reveal_strlit("9");
        assert(piece@ =~= seq![char_of_digit(d as nat)]);
    }
    s.append(piece);
}

/// Appends the numeral of `n`, most significant digit first.
fn append_decimal(s: &mut String, n: u64)
    ensures
        final(s)@ == old(s)@ + dec_chars(n as nat),
    decreases n,
{
    if n >= 10 {
        append_decimal(s, n / 10);
        append_digit(s, n % 10);
        proof {
            assert((n / 10) as nat == n as nat / 10);
            assert((n % 10) as nat == n as nat % 10);
            assert(old(s)@ + dec_chars(n as nat / 10) + seq![char_of_digit(n as nat % 10)]
                =~= old(s)@ + dec_chars(n as nat));
        }
    } else {
        append_digit(s, n);
        proof {
            assert(old(s)@ + seq![char_of_digit(n as nat)] =~= old(s)@ + dec_chars(n as nat));
        }
    }
}

/// Appends the text of one token.
fn append_token(s: &mut String, t: Token)
    ensures
        final(s)@ == old(s)@ + token_chars(t),
{
    match t {
        Token::Number(v) => {
            append_decimal(s, v);
        },
        Token::Operator(op) => {
            let piece: &str = match op {
                Op::Add => "+",
                Op::Subtract => "-",
                Op::Multiply => "*",
                Op::Divide => "/",
            };
            proof {
                reveal_strlit("+");
                reveal_strlit("-");
                reveal_strlit("*");
                reveal_strlit("/");
                assert(piece@ =~= seq![op_char(op)]);
            }
            s.append(piece);
        },
        Token::LeftParen => {
            proof {
                reveal_strlit("(");
                assert(("(")@ =~= seq!['(']);
            }
            s.append("(");
        },
        Token::RightParen => {
            proof {
                reveal_strlit(")");
                assert((")")@ =~= seq![')']);
            }
            s.append(")");
        },
    }
}

/// Prints a token sequence: the tokens' texts separated by single spaces,
/// numbers as decimal numerals. The result is exactly [`tokens_text`].
pub fn to_text(tokens: &Vec<Token>) -> (s: String)
    ensures
        s@ == tokens_text(tokens@),
{
    let mut s = String::new();
    let mut i: usize = 0;
    proof {
        assert(tokens@.take(0) =~= Seq::<Token>::empty());
    }
    while i < tokens.len()
        invariant
            i <= tokens.len(),
            s@ == tokens_text(tokens@.take(i as int)),
        decreases tokens@.len() - i,
    {
        let t = tokens[i];
        if i > 0 {
            proof {
                reveal_strlit(" ");
                assert((" ")@ =~= seq![' ']);
            }
            s.append(" ");
        }
        append_token(&mut s, t);
        proof {
            lemma_tokens_text_push(tokens@.take(i as int), t);
            assert(tokens@.take(i as int).push(t) =~= tokens@.take(i as int + 1));
            if i == 0 {
                assert(s@ =~= tokens_text(tokens@.take(i as int + 1)));
            } else {
                assert(s@ =~= tokens_text(tokens@.take(i as int)) + seq![' '] + token_chars(t));
                assert(s@ =~= tokens_text(tokens@.take(i as int + 1)));
            }
        }
        i = i + 1;
    }
    proof {
        assert(tokens@.take(tokens@.len() as int) =~= tokens@);
    }
    s
}

/// Tokenizing from a position where the printed text of `p` is exactly the
/// rest of the input extends the accumulator by exactly `p`.
proof fn lemma_tokenize_text(s: Seq<char>, i: int, acc: Seq<Token>, p: Seq<Token>)
    requires
        0 <= i <= s.len(),
        s.skip(i) == tokens_text(p),
    ensures
        spec_tokenize_from(s, i, acc) == Ok::<Seq<Token>, Error>(acc + p),
    decreases p.len(), 0int,
{
    assert(s.skip(i).len() == s.len() - i);
    if p.len() == 0 {
        assert(i == s.len());
        assert(acc + p =~= acc);
    } else {
        let t = p[0];
        let rest = p.drop_first();
        let tc = token_chars(t);
        let tail = tail_text(rest);
        assert(s.skip(i) == tc + tail);
        if t is Number {
            lemma_dec_chars_digits(t->Number_0 as nat);
        }
        assert(tc.len() >= 1);
        let j = i + tc.len() as int;
        assert(j <= s.len());
        assert forall|k: int| 0 <= k < tc.len() implies s[i + k] == tc[k] by {
            assert(s.skip(i)[k] == s[i + k]);
            assert((tc + tail)[k] == tc[k]);
        }
        assert forall|m: int| 0 <= m < tail.len() implies s[j + m] == tail[m] by {
            assert(s.skip(i)[tc.len() + m] == s[j + m]);
            assert((tc + tail)[tc.len() + m] == tail[m]);
        }
        assert(s.skip(j) =~= tail);
        assert(s[i] == tc[0]);
        match t {
            Token::Number(v) => {
                lemma_dec_chars_parse(v as nat);
                assert forall|k: int| i <= k < j implies is_digit_char(s[k]) by {
                    assert(s[k] == tc[k - i]);
                }
                if rest.len() == 0 {
                    assert(tail.len() == 0);
                    assert(j == s.len());
                } else {
                    assert(tail == seq![' '] + tokens_text(rest));
                    assert(tail[0] == ' ');
                    assert(s.skip(j)[0] == s[j]);
                    assert(s[j] == ' ');
                    assert(!is_digit_char(s[j]));
                }
                lemma_digit_run_end_exact(s, i, j);
                assert(s.subrange(i, j) =~= tc);
                assert(parse_digits(s.subrange(i, j)) == v as nat);
                assert(spec_tokenize_from(s, i, acc) == spec_tokenize_from(
                    s,
                    j,
                    acc.push(Token::Number(v)),
                ));
                lemma_tokenize_text_after_token(s, j, acc.push(t), rest);
                assert(acc.push(t) + rest =~= acc + p);
            },
            Token::Operator(op) => {
                assert(s[i] == op_char(op));
                assert(spec_tokenize_from(s, i, acc) == spec_tokenize_from(
                    s,
                    i + 1,
                    acc.push(Token::Operator(op)),
                ));
                lemma_tokenize_text_after_token(s, j, acc.push(t), rest);
                assert(acc.push(t) + rest =~= acc + p);
            },
            Token::LeftParen => {
                assert(s[i] == '(');
                lemma_tokenize_text_after_token(s, j, acc.push(t), rest);
                assert(acc.push(t) + rest =~= acc + p);
            },
            Token::RightParen => {
                assert(s[i] == ')');
                lemma_tokenize_text_after_token(s, j, acc.push(t), rest);
                assert(acc.push(t) + rest =~= acc + p);
            },
        }
    }
}

/// After one printed token, the rest of the input is a space-prefixed
/// printed sequence (or nothing); tokenizing it appends exactly `rest`.
proof fn lemma_tokenize_text_after_token(s: Seq<char>, j: int, acc: Seq<Token>, rest: Seq<Token>)
    requires
        0 <= j <= s.len(),
        s.skip(j) == tail_text(rest),
    ensures
        spec_tokenize_from(s, j, acc) == Ok::<Seq<Token>, Error>(acc + rest),
    decreases rest.len(), 1int,
{
    assert(s.skip(j).len() == s.len() - j);
    if rest.len() == 0 {
        assert(j == s.len());
        assert(acc + rest =~= acc);
    } else {
        let tail = tail_text(rest);
        assert(tail == seq![' '] + tokens_text(rest));
        assert(s.skip(j)[0] == s[j]);
        assert(s[j] == ' ');
        assert forall|m: int| 0 <= m < tokens_text(rest).len() implies s[j + 1 + m]
            == tokens_text(rest)[m] by {
            assert(s.skip(j)[1 + m] == s[j + 1 + m]);
            assert((seq![' '] + tokens_text(rest))[1 + m] == tokens_text(rest)[m]);
        }
        assert(s.skip(j + 1) =~= tokens_text(rest));
        lemma_tokenize_text(s, j + 1, acc, rest);
    }
}

/// The round-trip law: printing any token sequence and tokenizing the
/// printed text gives back exactly the sequence that was printed.
pub proof fn lemma_print_tokenize_round_trip(p: Seq<Token>)
    ensures
        spec_tokenize(tokens_text(p)) == Ok::<Seq<Token>, Error>(p),
{
    let s = tokens_text(p);
    assert(s.skip(0) =~= s);
    lemma_tokenize_text(s, 0, Seq::empty(), p);
    assert(Seq::<Token>::empty() + p =~= p);
}

/// Re-tokenizing the printed postfix form of a conversion result and
/// re-evaluating it yields the very same value as evaluating that result
/// directly — conversion and printing lose nothing.
pub proof fn lemma_reprint_evaluates_alike(infix: Seq<Token>, p: Seq<Token>)
    requires
        postfix::spec_to_postfix(infix) == Ok::<Seq<Token>, Error>(p),
    ensures
        (match spec_tokenize(tokens_text(p)) {
            Ok(q) => eval::spec_evaluate(q) == eval::spec_evaluate(p),
            Err(_) => false,
        }),
{
    lemma_print_tokenize_round_trip(p);
}

} // verus!
