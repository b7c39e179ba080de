//! Tests of the evaluator's domain checks and their error messages.

use sci_calc::eval::{check_domain, EvalError};
use sci_calc::recognize::recognize;

fn check(line: &str) -> Result<(), EvalError> {
    check_domain(&recognize(line).unwrap())
}

#[test]
fn division_by_zero_is_refused() {
    assert_eq!(check("10 / 0"), Err(EvalError::DivisionByZero));
    assert_eq!(check("1 / 0.00"), Err(EvalError::DivisionByZero));
    assert_eq!(check("1 / -0"), Err(EvalError::DivisionByZero));
    assert_eq!(check("1 / -0.000"), Err(EvalError::DivisionByZero));
}

#[test]
fn division_by_nonzero_is_allowed() {
    assert_eq!(check("10 / 4"), Ok(()));
    assert_eq!(check("1 / 0.5"), Ok(()));
    assert_eq!(check("1 / -2"), Ok(()));
}

#[test]
fn negative_square_root_is_refused() {
    assert_eq!(check("sqrt -4"), Err(EvalError::NegativeSquareRoot));
    assert_eq!(check("sqrt -0.1"), Err(EvalError::NegativeSquareRoot));
    assert_eq!(check("sqrt 16"), Ok(()));
    assert_eq!(check("sqrt 0"), Ok(()));
    // a signed zero is still zero, not negative
    assert_eq!(check("sqrt -0"), Ok(()));
}

#[test]
fn non_positive_logarithm_is_refused() {
    assert_eq!(check("log 0"), Err(EvalError::NonPositiveLogarithm));
    assert_eq!(check("log -3"), Err(EvalError::NonPositiveLogarithm));
    assert_eq!(check("log 10"), Ok(()));
    assert_eq!(check("ln 0"), Err(EvalError::NonPositiveNaturalLogarithm));
    assert_eq!(check("ln -1"), Err(EvalError::NonPositiveNaturalLogarithm));
    assert_eq!(check("ln 2"), Ok(()));
}

#[test]
fn factorial_domain() {
    assert_eq!(check("fact 5"), Ok(()));
    assert_eq!(check("fact 0"), Ok(()));
    assert_eq!(check("fact 5.0"), Ok(()));
    assert_eq!(check("fact -1"), Err(EvalError::FactorialUndefined));
    assert_eq!(check("fact 2.5"), Err(EvalError::FactorialUndefined));
    assert_eq!(check("fact -0.5"), Err(EvalError::FactorialUndefined));
}

#[test]
fn total_operations_never_error() {
    assert_eq!(check("2 + 2"), Ok(()));
    assert_eq!(check("2 - 5"), Ok(()));
    assert_eq!(check("0 * 0"), Ok(()));
    assert_eq!(check("2 ^ -1"), Ok(()));
    assert_eq!(check("sin 90"), Ok(()));
    assert_eq!(check("cos -720"), Ok(()));
    assert_eq!(check("tan 45"), Ok(()));
    assert_eq!(check("abs -4.2"), Ok(()));
}

#[test]
fn domain_error_messages() {
    assert_eq!(EvalError::DivisionByZero.message(), "Division by zero!");
    assert_eq!(
        EvalError::NegativeSquareRoot.message(),
        "Cannot calculate square root of negative number!"
    );
    assert_eq!(
        EvalError::NonPositiveLogarithm.message(),
        "Cannot calculate logarithm of non-positive number!"
    );
    assert_eq!(
        EvalError::NonPositiveNaturalLogarithm.message(),
        "Cannot calculate natural logarithm of non-positive number!"
    );
    assert_eq!(
        EvalError::FactorialUndefined.message(),
        "Factorial only defined for non-negative integers!"
    );
}
