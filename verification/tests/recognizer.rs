//! Tests of the recognizer: pattern matching, case folding, constant
//! substitution, and rejection of malformed lines.

use sci_calc::number::Number;
use sci_calc::operation::Operation;
use sci_calc::recognize::{recognize, ClassifyError};

fn num(s: &str) -> Number {
    Number::new(s.chars().collect())
}

fn lit(n: &Number) -> String {
    n.literal().iter().collect()
}

#[test]
fn binary_addition() {
    assert_eq!(recognize("2 + 2"), Ok(Operation::Add(num("2"), num("2"))));
}

#[test]
fn binary_all_operators() {
    assert_eq!(recognize("7 - 9.5"), Ok(Operation::Subtract(num("7"), num("9.5"))));
    assert_eq!(recognize("3*4"), Ok(Operation::Multiply(num("3"), num("4"))));
    assert_eq!(recognize("10 / 4"), Ok(Operation::Divide(num("10"), num("4"))));
    assert_eq!(recognize("2 ^ 3"), Ok(Operation::Power(num("2"), num("3"))));
}

#[test]
fn binary_signed_and_decimal_operands() {
    assert_eq!(recognize("1.5 + -.5"), Ok(Operation::Add(num("1.5"), num("-.5"))));
    assert_eq!(recognize("-5-2"), Ok(Operation::Subtract(num("-5"), num("2"))));
    assert_eq!(recognize("1--2"), Ok(Operation::Subtract(num("1"), num("-2"))));
    assert_eq!(recognize("-0.5 * -0.5"), Ok(Operation::Multiply(num("-0.5"), num("-0.5"))));
}

#[test]
fn binary_whitespace_is_optional() {
    assert_eq!(recognize("2+2"), Ok(Operation::Add(num("2"), num("2"))));
    assert_eq!(recognize("2   +   2"), Ok(Operation::Add(num("2"), num("2"))));
    assert_eq!(recognize("2\t+\t2"), Ok(Operation::Add(num("2"), num("2"))));
}

#[test]
fn function_parentheses_each_optional() {
    assert_eq!(recognize("sqrt 16"), Ok(Operation::SquareRoot(num("16"))));
    assert_eq!(recognize("sqrt(16)"), Ok(Operation::SquareRoot(num("16"))));
    assert_eq!(recognize("sqrt (16"), Ok(Operation::SquareRoot(num("16"))));
    assert_eq!(recognize("sqrt 16)"), Ok(Operation::SquareRoot(num("16"))));
    assert_eq!(recognize("sqrt16"), Ok(Operation::SquareRoot(num("16"))));
}

#[test]
fn function_all_keywords() {
    assert_eq!(recognize("sqrt 16"), Ok(Operation::SquareRoot(num("16"))));
    assert_eq!(recognize("sin 90"), Ok(Operation::Sine(num("90"))));
    assert_eq!(recognize("cos 0"), Ok(Operation::Cosine(num("0"))));
    assert_eq!(recognize("tan 45"), Ok(Operation::Tangent(num("45"))));
    assert_eq!(recognize("log 100"), Ok(Operation::Logarithm(num("100"))));
    assert_eq!(recognize("ln 1"), Ok(Operation::NaturalLog(num("1"))));
    assert_eq!(recognize("abs -4.2"), Ok(Operation::Absolute(num("-4.2"))));
    assert_eq!(recognize("fact 5"), Ok(Operation::Factorial(num("5"))));
}

#[test]
fn case_is_folded() {
    assert_eq!(recognize("SQRT 16"), Ok(Operation::SquareRoot(num("16"))));
    assert_eq!(recognize("Sin 90"), Ok(Operation::Sine(num("90"))));
    assert_eq!(recognize("FACT 5"), Ok(Operation::Factorial(num("5"))));
}

#[test]
fn constant_pi_is_substituted_before_matching() {
    let r = recognize("3 * pi").unwrap();
    match r {
        Operation::Multiply(a, b) => {
            assert_eq!(lit(&a), "3");
            assert_eq!(lit(&b), "3.141592653589793");
        }
        other => panic!("expected a multiplication, got {:?}", other),
    }
}

#[test]
fn constant_e_is_substituted_before_matching() {
    assert_eq!(recognize("ln e"), Ok(Operation::NaturalLog(num("2.718281828459045"))));
    assert_eq!(recognize("2 * E"), Ok(Operation::Multiply(num("2"), num("2.718281828459045"))));
}

#[test]
fn bare_constants_match_no_pattern() {
    // a lone constant becomes a lone number, which is neither shape
    assert_eq!(recognize("pi"), Err(ClassifyError::InvalidExpressionFormat));
    assert_eq!(
        recognize("pi + pi"),
        Ok(Operation::Add(num("3.141592653589793"), num("3.141592653589793")))
    );
}

#[test]
fn fractional_operands_without_integer_part() {
    assert_eq!(recognize(".5 + .5"), Ok(Operation::Add(num(".5"), num(".5"))));
    assert_eq!(recognize("sqrt(-4)"), Ok(Operation::SquareRoot(num("-4"))));
}

#[test]
fn naive_e_substitution_inside_words() {
    // the letter `e` is replaced wherever it stands, so scientific notation
    // turns into one long bare number, which matches neither pattern
    assert_eq!(recognize("2e3"), Err(ClassifyError::InvalidExpressionFormat));
}

#[test]
fn malformed_lines_fail_classification() {
    assert_eq!(recognize("banana"), Err(ClassifyError::InvalidExpressionFormat));
    assert_eq!(recognize("2 + "), Err(ClassifyError::InvalidExpressionFormat));
    assert_eq!(recognize("sqrt"), Err(ClassifyError::InvalidExpressionFormat));
    assert_eq!(recognize(""), Err(ClassifyError::InvalidExpressionFormat));
    assert_eq!(recognize("2 + 2 + 2"), Err(ClassifyError::InvalidExpressionFormat));
    assert_eq!(recognize("1.2.3"), Err(ClassifyError::InvalidExpressionFormat));
    assert_eq!(recognize("7."), Err(ClassifyError::InvalidExpressionFormat));
    assert_eq!(recognize("sqrt()"), Err(ClassifyError::InvalidExpressionFormat));
}

#[test]
fn whole_line_is_anchored() {
    assert_eq!(recognize(" 2 + 2"), Err(ClassifyError::InvalidExpressionFormat));
    assert_eq!(recognize("2 + 2 "), Err(ClassifyError::InvalidExpressionFormat));
    assert_eq!(recognize("x2 + 2"), Err(ClassifyError::InvalidExpressionFormat));
    assert_eq!(recognize("sqrt 16 x"), Err(ClassifyError::InvalidExpressionFormat));
}

#[test]
fn classification_error_message() {
    let e = recognize("banana").unwrap_err();
    assert_eq!(e.message(), "Invalid expression format");
}

#[test]
fn recognized_literals_are_number_tokens() {
    let cases = ["2 + 2", "1.5 + -.5", "3 * pi", "sqrt -4", "fact 2.5"];
    for line in cases {
        match recognize(line).unwrap() {
            Operation::Add(a, b)
            | Operation::Subtract(a, b)
            | Operation::Multiply(a, b)
            | Operation::Divide(a, b)
            | Operation::Power(a, b) => {
                assert!(sci_calc::number::is_number_token(a.literal()));
                assert!(sci_calc::number::is_number_token(b.literal()));
            }
            Operation::SquareRoot(a)
            | Operation::Sine(a)
            | Operation::Cosine(a)
            | Operation::Tangent(a)
            | Operation::Logarithm(a)
            | Operation::NaturalLog(a)
            | Operation::Factorial(a)
            | Operation::Absolute(a) => {
                assert!(sci_calc::number::is_number_token(a.literal()));
            }
        }
    }
}
