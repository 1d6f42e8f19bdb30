use calculator::constants::Constants;
use calculator::error::CalculatorError;
use calculator::eval::evaluate_expression;
use calculator::number::Number;

fn result_repr(text: &str) -> String {
    let consts = Constants::standard();
    match evaluate_expression(text, &consts) {
        Ok(tok) => tok.lit_val().repr().to_string(),
        Err(e) => panic!("evaluation failed: {:?} on {:?}", variant_name(&e), text),
    }
}

fn eval_err(text: &str) -> CalculatorError {
    let consts = Constants::standard();
    match evaluate_expression(text, &consts) {
        Ok(_) => panic!("evaluation unexpectedly succeeded on {:?}", text),
        Err(e) => e,
    }
}

fn variant_name(e: &CalculatorError) -> &'static str {
    match e {
        CalculatorError::UnknownIdentifier(_) => "UnknownIdentifier",
        CalculatorError::UnknownFunction(_) => "UnknownFunction",
        CalculatorError::UnrecognizedCharacter(_) => "UnrecognizedCharacter",
        CalculatorError::UnmatchedParentheses => "UnmatchedParentheses",
        CalculatorError::IncorrectArguments(_, _) => "IncorrectArguments",
        CalculatorError::DivisionByZero => "DivisionByZero",
        CalculatorError::ExpectedLiteral => "ExpectedLiteral",
    }
}

fn result_value(text: &str) -> Number {
    let consts = Constants::standard();
    match evaluate_expression(text, &consts) {
        Ok(tok) => tok.lit_val(),
        Err(e) => panic!("evaluation failed: {:?} on {:?}", variant_name(&e), text),
    }
}

fn assert_value(text: &str, numeral: &str) {
    let got = result_value(text);
    let expected = Number::from_numeral(numeral).unwrap();
    assert!(
        got.minus(&expected).is_zero(),
        "{:?} evaluated to {:?}, expected {:?}",
        text,
        got.repr(),
        numeral
    );
}

#[test]
fn precedence_round_trip() {
    assert_value("3 + 4 * 2", "11");
}

#[test]
fn longer_flat_chain_honors_precedence() {
    assert_value("2 * 3 + 10 / 2 - 1", "10");
    let left_fold = result_value("1 - 2 - 3");
    let four = Number::from_numeral("4").unwrap();
    assert!(left_fold.plus(&four).is_zero());
}

#[test]
fn parenthesization_changes_result() {
    assert_value("(3 + 4) * 2", "14");
}

#[test]
fn caret_is_right_associative() {
    assert_value("2 ^ 3 ^ 2", "512");
    let got = result_value("2 ^ 3 ^ 2");
    let wrong = Number::from_numeral("64").unwrap();
    assert!(!got.minus(&wrong).is_zero());
}

#[test]
fn division_by_zero_is_reported() {
    assert!(matches!(eval_err("5 / 0"), CalculatorError::DivisionByZero));
}

#[test]
fn evaluation_recovers_after_division_by_zero() {
    let consts = Constants::standard();
    assert!(matches!(
        evaluate_expression("5 / 0", &consts),
        Err(CalculatorError::DivisionByZero)
    ));
    let after = evaluate_expression("1 + 1", &consts).unwrap();
    let expected = Number::from_numeral("2").unwrap();
    assert!(after.lit_val().minus(&expected).is_zero());
}

#[test]
fn unclosed_parenthesis_is_reported() {
    assert!(matches!(
        eval_err("(1 + 2"),
        CalculatorError::UnmatchedParentheses
    ));
}

#[test]
fn stray_closing_parenthesis_is_reported() {
    assert!(matches!(
        eval_err("1 + 2)"),
        CalculatorError::UnmatchedParentheses
    ));
}

#[test]
fn function_arity_is_enforced() {
    assert!(matches!(
        eval_err("min(1)"),
        CalculatorError::IncorrectArguments(1, 2)
    ));
}

#[test]
fn constant_substitution_matches_direct_retrieval() {
    let consts = Constants::standard();
    let through_pipeline = evaluate_expression("2 * pi", &consts).unwrap();
    let two = Number::from_numeral("2").unwrap();
    let direct = consts.lookup(&String::from("pi")).unwrap();
    let product = two.times(&direct);
    assert_eq!(through_pipeline.lit_val().repr(), product.repr());
}

#[test]
fn greek_alias_resolves_like_pi() {
    assert_eq!(result_repr("2 * \u{3c0}"), result_repr("2 * pi"));
}

#[test]
fn evaluation_is_idempotent() {
    assert_eq!(result_repr("1.5 + 2.25 * 4"), result_repr("1.5 + 2.25 * 4"));
}

#[test]
fn random_values_vary_across_calls() {
    assert_ne!(result_repr("rand()"), result_repr("rand()"));
}

#[test]
fn leading_unary_minus() {
    let got = result_value("-5 + 3");
    let expected = Number::from_numeral("2").unwrap().negated();
    assert!(got.minus(&expected).is_zero());
}

#[test]
fn unrecognized_character_is_reported() {
    assert!(matches!(
        eval_err("3 $ 4"),
        CalculatorError::UnrecognizedCharacter('$')
    ));
}

#[test]
fn unknown_identifier_is_reported() {
    match eval_err("2 * tau") {
        CalculatorError::UnknownIdentifier(name) => assert_eq!(name, "tau"),
        other => panic!("wrong error: {:?}", variant_name(&other)),
    }
}

#[test]
fn unknown_function_is_reported() {
    match eval_err("frob(2)") {
        CalculatorError::UnknownFunction(name) => assert_eq!(name, "frob"),
        other => panic!("wrong error: {:?}", variant_name(&other)),
    }
}

#[test]
fn operator_without_operands_is_reported() {
    assert!(matches!(eval_err("*"), CalculatorError::ExpectedLiteral));
}

#[test]
fn empty_input_is_reported() {
    assert!(matches!(eval_err(""), CalculatorError::ExpectedLiteral));
}

#[test]
fn subtraction_and_division() {
    assert_value("5 - 3", "2");
    assert_value("8 / 2", "4");
}

#[test]
fn decimal_literals() {
    assert_value("1.5 * 2", "3");
    assert_value("2.5 + 2.5", "5");
}

#[test]
fn min_and_max_pick_an_operand() {
    assert_value("min(1, 2)", "1");
    assert_value("max(1, 2)", "2");
    assert_value("min(2 + 3, 4)", "4");
}

#[test]
fn sqrt_of_a_square_is_exact() {
    assert_value("sqrt(4)", "2");
    assert_value("sqrt(4) - 2", "0.0");
}

#[test]
fn pi_lies_between_its_brackets() {
    assert_eq!(result_repr("min(pi, 3.142)"), result_repr("pi"));
    assert_eq!(result_repr("max(pi, 3.141)"), result_repr("pi"));
}

#[test]
fn e_lies_between_its_brackets() {
    assert_eq!(result_repr("min(e, 2.719)"), result_repr("e"));
    assert_eq!(result_repr("max(e, 2.718)"), result_repr("e"));
}

#[test]
fn trigonometric_values_lie_between_their_brackets() {
    assert_eq!(result_repr("max(sin(1), 0.9)"), result_repr("0.9"));
    assert_eq!(result_repr("min(sin(1), 0.8)"), result_repr("0.8"));
    assert_eq!(result_repr("max(cos(1), 0.6)"), result_repr("0.6"));
    assert_eq!(result_repr("min(cos(1), 0.5)"), result_repr("0.5"));
    assert_eq!(result_repr("max(tan(1), 1.6)"), result_repr("1.6"));
    assert_eq!(result_repr("min(tan(1), 1.5)"), result_repr("1.5"));
}

#[test]
fn hyperbolic_values_lie_between_their_brackets() {
    assert_eq!(result_repr("max(sinh(1), 1.2)"), result_repr("1.2"));
    assert_eq!(result_repr("min(sinh(1), 1.1)"), result_repr("1.1"));
    assert_eq!(result_repr("max(cosh(1), 1.6)"), result_repr("1.6"));
    assert_eq!(result_repr("min(cosh(1), 1.5)"), result_repr("1.5"));
    assert_eq!(result_repr("max(tanh(1), 0.8)"), result_repr("0.8"));
    assert_eq!(result_repr("min(tanh(1), 0.7)"), result_repr("0.7"));
}

#[test]
fn angle_conversions_lie_between_their_brackets() {
    assert_eq!(result_repr("max(rad(180), 3.15)"), result_repr("3.15"));
    assert_eq!(result_repr("min(rad(180), 3.14)"), result_repr("3.14"));
    assert_eq!(result_repr("max(deg(rad(90)), 90.1)"), result_repr("90.1"));
    assert_eq!(result_repr("min(deg(rad(90)), 89.9)"), result_repr("89.9"));
}

#[test]
fn whitespace_is_skipped() {
    assert_eq!(result_repr("  1   +2 "), result_repr("1+2"));
}

#[test]
fn function_without_parenthesis_is_an_identifier() {
    assert!(matches!(
        eval_err("min 1"),
        CalculatorError::UnknownIdentifier(_)
    ));
}
