use calculator::error::CalculatorError;
use calculator::number::Number;
use calculator::parser::infix_to_postfix;
use calculator::parser::tokenize;
use calculator::token::Token;

#[test]
fn operator_precedences() {
    assert_eq!(Token::Plus.precedence(), 2);
    assert_eq!(Token::Minus.precedence(), 2);
    assert_eq!(Token::Star.precedence(), 3);
    assert_eq!(Token::Slash.precedence(), 3);
    assert_eq!(Token::Caret.precedence(), 4);
    assert_eq!(Token::Comma.precedence(), -1);
    assert_eq!(Token::LeftParen.precedence(), -1);
}

#[test]
fn token_classification() {
    let lit = Token::Lit(Number::from_numeral("3").unwrap());
    assert!(lit.is_lit());
    assert!(!lit.is_ident());
    assert!(!lit.is_operator());
    assert!(!lit.is_function());
    let ident = Token::Identifier(String::from("pi"));
    assert!(ident.is_ident());
    assert!(!ident.is_lit());
    let call = Token::FnCall(String::from("sin"));
    assert!(call.is_function());
    assert!(!call.is_ident());
    assert!(Token::Plus.is_operator());
    assert!(Token::Caret.is_operator());
    assert!(!Token::Comma.is_operator());
}

#[test]
fn only_caret_associates_right() {
    assert!(Token::Plus.left_associated());
    assert!(Token::Minus.left_associated());
    assert!(Token::Star.left_associated());
    assert!(Token::Slash.left_associated());
    assert!(!Token::Caret.left_associated());
}

#[test]
fn token_pow_raises_literals() {
    let two = Token::Lit(Number::from_numeral("2").unwrap());
    let ten = Token::Lit(Number::from_numeral("10").unwrap());
    let result = two.pow(ten);
    let expected = Number::from_numeral("1024").unwrap();
    assert!(result.lit_val().minus(&expected).is_zero());
}

#[test]
fn identifier_returns_the_name() {
    assert_eq!(Token::Identifier(String::from("pi")).identifier(), "pi");
    assert_eq!(Token::FnCall(String::from("sin")).identifier(), "sin");
}

#[test]
fn numerals_are_parsed_or_rejected() {
    assert!(Number::from_numeral("3").is_some());
    assert!(Number::from_numeral("3.25").is_some());
    assert!(Number::from_numeral("3.").is_some());
    assert!(Number::from_numeral("").is_none());
    assert!(Number::from_numeral(".5").is_none());
    assert!(Number::from_numeral("1.2.3").is_none());
    assert!(Number::from_numeral("abc").is_none());
    assert!(Number::from_numeral("-1").is_none());
}

#[test]
fn number_arithmetic_is_exact_on_small_integers() {
    let three = Number::from_numeral("3").unwrap();
    let four = Number::from_numeral("4").unwrap();
    let seven = Number::from_numeral("7").unwrap();
    let one = Number::from_numeral("1").unwrap();
    let twelve = Number::from_numeral("12").unwrap();
    let two = Number::from_numeral("2").unwrap();
    let nine = Number::from_numeral("9").unwrap();
    assert!(three.plus(&four).minus(&seven).is_zero());
    assert!(four.minus(&three).minus(&one).is_zero());
    assert!(three.times(&four).minus(&twelve).is_zero());
    assert!(four.divided_by(&two).minus(&two).is_zero());
    assert!(three.negated().negated().minus(&three).is_zero());
    assert!(three.to_power(&two).minus(&nine).is_zero());
}

#[test]
fn zero_is_recognized() {
    assert!(Number::from_numeral("0").unwrap().is_zero());
    assert!(Number::from_numeral("0.0").unwrap().is_zero());
    assert!(!Number::from_numeral("0.5").unwrap().is_zero());
    let five = Number::from_numeral("5").unwrap();
    assert!(five.minus(&five).is_zero());
}

#[test]
fn tokenizer_splits_a_mixed_line() {
    let tokens = tokenize("min(1, 2) * pi ^ 2").unwrap();
    assert_eq!(tokens.len(), 10);
    assert!(tokens[0].is_function());
    assert!(matches!(tokens[1], Token::LeftParen));
    assert!(tokens[2].is_lit());
    assert!(matches!(tokens[3], Token::Comma));
    assert!(tokens[4].is_lit());
    assert!(matches!(tokens[5], Token::RightParen));
    assert!(matches!(tokens[6], Token::Star));
    assert!(tokens[7].is_ident());
    assert!(matches!(tokens[8], Token::Caret));
    assert!(tokens[9].is_lit());
}

#[test]
fn tokenizer_reads_a_name_before_a_parenthesis_as_a_call() {
    let tokens = tokenize("sin(0)").unwrap();
    assert!(tokens[0].is_function());
    assert_eq!(tokens[0].identifier(), "sin");
    let spaced = tokenize("sin (0)").unwrap();
    assert!(spaced[0].is_ident());
}

#[test]
fn tokenizer_rejects_a_second_decimal_point() {
    assert!(matches!(
        tokenize("1.2.3"),
        Err(CalculatorError::UnrecognizedCharacter('.'))
    ));
}

#[test]
fn converter_orders_operands_before_operators() {
    let tokens = tokenize("3 + 4 * 2").unwrap();
    let postfix = infix_to_postfix(tokens).unwrap();
    assert!(postfix[0].is_lit());
    assert!(postfix[1].is_lit());
    assert!(postfix[2].is_lit());
    assert!(matches!(postfix[3], Token::Star));
    assert!(matches!(postfix[4], Token::Plus));
}

#[test]
fn converter_attaches_a_function_to_its_arguments() {
    let tokens = tokenize("min(1, 2)").unwrap();
    let postfix = infix_to_postfix(tokens).unwrap();
    assert_eq!(postfix.len(), 3);
    assert!(postfix[0].is_lit());
    assert!(postfix[1].is_lit());
    assert!(postfix[2].is_function());
}
