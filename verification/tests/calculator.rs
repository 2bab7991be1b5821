use calculator::eval::{evaluate, Rat};
use calculator::evaluate_expression;
use calculator::postfix::to_postfix;
use calculator::print::to_text;
use calculator::token::{prec, Error, Op, Token};
use calculator::tokenize::tokenize;

fn as_f32(r: Rat) -> f32 {
    r.num as f32 / r.den as f32
}

fn eval_text(text: &str) -> Result<Rat, Error> {
    evaluate_expression(text)
}

#[test]
fn tokenizes_mixed_expression_in_source_order() {
    let ts = tokenize("2 + 3 * 4 / 2").unwrap();
    assert_eq!(
        ts,
        vec![
            Token::Number(2),
            Token::Operator(Op::Add),
            Token::Number(3),
            Token::Operator(Op::Multiply),
            Token::Number(4),
            Token::Operator(Op::Divide),
            Token::Number(2),
        ]
    );
}

#[test]
fn precedence_binds_multiplication_and_division_tighter() {
    let ts = tokenize("2 + 3 * 4 / 2").unwrap();
    let pf = to_postfix(&ts).unwrap();
    let v = evaluate(&pf).unwrap();
    assert_eq!(as_f32(v), 8.0);
}

#[test]
fn parentheses_override_precedence() {
    let v = eval_text("(22 + 3) * 44 / 2").unwrap();
    assert_eq!(as_f32(v), 550.0);
}

#[test]
fn division_gives_exact_decimal_results() {
    let v = eval_text("(1 + 2) * 3 / 4").unwrap();
    assert_eq!(as_f32(v), 2.25);
    assert_eq!(v.num, 9);
    assert_eq!(v.den, 4);
}

#[test]
fn printed_postfix_retokenizes_to_the_same_tokens() {
    let ts = tokenize("((2 + 3) * 4)").unwrap();
    let pf = to_postfix(&ts).unwrap();
    let printed = to_text(&pf);
    let again = tokenize(&printed).unwrap();
    assert_eq!(again, pf);
    let direct = evaluate(&pf).unwrap();
    let reread = evaluate(&again).unwrap();
    assert_eq!(direct, reread);
    assert_eq!(as_f32(direct), 20.0);
}

#[test]
fn printer_writes_tokens_separated_by_spaces() {
    let pf = vec![
        Token::Number(12),
        Token::Number(3),
        Token::Operator(Op::Add),
    ];
    assert_eq!(to_text(&pf), "12 3 +");
}

#[test]
fn unbalanced_open_parenthesis_is_reported() {
    assert_eq!(eval_text("(2 + 3"), Err(Error::UnbalancedParentheses));
}

#[test]
fn unbalanced_close_parenthesis_is_reported() {
    assert_eq!(eval_text("2 + 3)"), Err(Error::UnbalancedParentheses));
}

#[test]
fn invalid_character_names_the_character_and_position() {
    assert_eq!(
        eval_text("2 & 3"),
        Err(Error::InvalidCharacter { ch: '&', pos: 2 })
    );
}

#[test]
fn bare_number_evaluates_to_itself() {
    let v = eval_text("42").unwrap();
    assert_eq!(v.num, 42);
    assert_eq!(v.den, 1);
    assert_eq!(as_f32(v), 42.0);
}

#[test]
fn equal_precedence_is_left_associative() {
    let v = eval_text("8 - 3 - 2").unwrap();
    assert_eq!(as_f32(v), 3.0);
    let w = eval_text("8 / 4 / 2").unwrap();
    assert_eq!(as_f32(w), 1.0);
}

#[test]
fn whitespace_is_elided_everywhere() {
    let v = eval_text("  2 \t+\n 3  ").unwrap();
    assert_eq!(as_f32(v), 5.0);
}

#[test]
fn empty_input_is_a_malformed_expression() {
    assert_eq!(eval_text(""), Err(Error::MalformedExpression));
}

#[test]
fn operator_without_operands_is_missing_an_operand() {
    let pf = vec![Token::Number(1), Token::Operator(Op::Add)];
    assert_eq!(evaluate(&pf), Err(Error::MissingOperand));
}

#[test]
fn leftover_operands_are_a_malformed_expression() {
    let pf = vec![Token::Number(1), Token::Number(2)];
    assert_eq!(evaluate(&pf), Err(Error::MalformedExpression));
}

#[test]
fn division_by_zero_is_its_own_condition() {
    assert_eq!(eval_text("5 / 0"), Err(Error::DivisionByZero));
}

#[test]
fn numeral_too_large_for_the_token_type_is_malformed() {
    assert_eq!(
        eval_text("99999999999999999999"),
        Err(Error::MalformedNumber { pos: 0 })
    );
}

#[test]
fn literal_beyond_the_evaluator_range_overflows() {
    assert_eq!(eval_text("9223372036854775808"), Err(Error::Overflow));
}

#[test]
fn negative_intermediate_values_keep_a_positive_denominator() {
    let v = eval_text("4 / (2 - 4)").unwrap();
    assert!(v.den > 0);
    assert_eq!(as_f32(v), -2.0);
}

#[test]
fn precedence_table_ranks_operators() {
    assert_eq!(prec(Op::Multiply), 2);
    assert_eq!(prec(Op::Divide), 2);
    assert_eq!(prec(Op::Add), 1);
    assert_eq!(prec(Op::Subtract), 1);
}

#[test]
fn converter_output_is_postfix_order() {
    let ts = tokenize("2 + 3 * 4").unwrap();
    let pf = to_postfix(&ts).unwrap();
    assert_eq!(
        pf,
        vec![
            Token::Number(2),
            Token::Number(3),
            Token::Number(4),
            Token::Operator(Op::Multiply),
            Token::Operator(Op::Add),
        ]
    );
}
