//! The evaluator's domain checks: which operations are outside their
//! mathematical domain, decided from the operand literals alone.
//!
//! The arithmetic itself is floating point and is left to the caller; what
//! is decided here is exactly when it must not be attempted.  Zero, negative
//! and whole-number are read off the decimal literal: a literal is zero when
//! it holds no nonzero digit, negative when it is signed and not zero, and
//! whole when every digit after its decimal point is a zero.

use vstd::prelude::*;

use crate::number::{
    lemma_integer_means_whole, lemma_negative_means_negative, lemma_zero_means_zero,
    spec_frac_len, spec_is_number, spec_num_is_integer, spec_num_is_negative, spec_num_is_zero,
    spec_numerator, spec_pow10,
};
use crate::operation::{OpModel, Operation};

verus! {

/// Failure to evaluate a well-formed operation, due to a mathematical domain
/// restriction.
#[derive(Debug, Clone, Copy, PartialEq, Eq)]
pub enum EvalError {
    /// Division with a zero divisor.
    DivisionByZero,
    /// Square root of a value below zero.
    NegativeSquareRoot,
    /// Base-ten logarithm of a value not above zero.
    NonPositiveLogarithm,
    /// Natural logarithm of a value not above zero.
    NonPositiveNaturalLogarithm,
    /// Factorial of a negative or fractional value.
    FactorialUndefined,
}

/// The domain check of an operation: the error owed to it, if any.
///
/// Addition, subtraction, multiplication, power, the trigonometric functions
/// and the absolute value are total; the remaining variants are checked
/// against their domain.
pub open spec fn spec_check_domain(m: OpModel) -> Result<(), EvalError> {
    match m {
        OpModel::Divide(_, b) => if spec_num_is_zero(b) {
            Err(EvalError::DivisionByZero)
        } else {
            Ok(())
        },
        OpModel::SquareRoot(a) => if spec_num_is_negative(a) {
            Err(EvalError::NegativeSquareRoot)
        } else {
            Ok(())
        },
        OpModel::Logarithm(a) => if spec_num_is_zero(a) || spec_num_is_negative(a) {
            Err(EvalError::NonPositiveLogarithm)
        } else {
            Ok(())
        },
        OpModel::NaturalLog(a) => if spec_num_is_zero(a) || spec_num_is_negative(a) {
            Err(EvalError::NonPositiveNaturalLogarithm)
        } else {
            Ok(())
        },
        OpModel::Factorial(a) => if spec_num_is_negative(a) || !spec_num_is_integer(a) {
            Err(EvalError::FactorialUndefined)
        } else {
            Ok(())
        },
        _ => Ok(()),
    }
}

/// The domain check of an operation, decided from the operand literals.
///
/// The result is a function of the operation alone — there is no hidden
/// state, so identical operations always check identically.  An error comes
/// back if and only if [`spec_check_domain`] owes one: division by a zero
/// literal, square root of a negative literal, either logarithm of a zero or
/// negative literal, factorial of a negative or fractional literal.
pub fn check_domain(op: &Operation) -> (r: Result<(), EvalError>)
    ensures
        r == spec_check_domain(op@),
{
    match op {
        Operation::Divide(_, b) => {
            if b.is_zero() {
                Err(EvalError::DivisionByZero)
            } else {
                Ok(())
            }
        },
        Operation::SquareRoot(a) => {
            if a.is_negative() {
                Err(EvalError::NegativeSquareRoot)
            } else {
                Ok(())
            }
        },
        Operation::Logarithm(a) => {
            if a.is_zero() || a.is_negative() {
                Err(EvalError::NonPositiveLogarithm)
            } else {
                Ok(())
            }
        },
        Operation::NaturalLog(a) => {
            if a.is_zero() || a.is_negative() {
                Err(EvalError::NonPositiveNaturalLogarithm)
            } else {
                Ok(())
            }
        },
        Operation::Factorial(a) => {
            if a.is_negative() || !a.is_integer() {
                Err(EvalError::FactorialUndefined)
            } else {
                Ok(())
            }
        },
        _ => Ok(()),
    }
}

impl EvalError {
    /// The human-readable message for this domain error.
    pub fn message(&self) -> (r: String)
        ensures
            match *self {
                EvalError::DivisionByZero => r@ == "Division by zero!"@,
                EvalError::NegativeSquareRoot => r@
                    == "Cannot calculate square root of negative number!"@,
                EvalError::NonPositiveLogarithm => r@
                    == "Cannot calculate logarithm of non-positive number!"@,
                EvalError::NonPositiveNaturalLogarithm => r@
                    == "Cannot calculate natural logarithm of non-positive number!"@,
                EvalError::FactorialUndefined => r@
                    == "Factorial only defined for non-negative integers!"@,
            },
    {
        match self {
            EvalError::DivisionByZero => "Division by zero!".to_owned(),
            EvalError::NegativeSquareRoot => "Cannot calculate square root of negative number!"
                .to_owned(),
            EvalError::NonPositiveLogarithm => "Cannot calculate logarithm of non-positive number!"
                .to_owned(),
            EvalError::NonPositiveNaturalLogarithm =>
                "Cannot calculate natural logarithm of non-positive number!".to_owned(),
            EvalError::FactorialUndefined => "Factorial only defined for non-negative integers!"
                .to_owned(),
        }
    }
}

/// The domain table, read over the numbers the literals denote rather than
/// over their text: division is refused exactly on a divisor denoting zero,
/// the square root exactly below zero, either logarithm exactly at or below
/// zero, and the factorial exactly below zero or off the whole numbers.  A
/// literal denotes its numerator divided by ten to the length of its
/// fractional part.
pub proof fn lemma_check_domain_by_value(m: OpModel)
    requires
        m matches OpModel::Factorial(a) ==> spec_is_number(a),
    ensures
        m matches OpModel::Divide(_, b) ==> spec_check_domain(m) == (if spec_numerator(b) == 0 {
            Err::<(), EvalError>(EvalError::DivisionByZero)
        } else {
            Ok::<(), EvalError>(())
        }),
        m matches OpModel::SquareRoot(a) ==> spec_check_domain(m) == (if spec_numerator(a) < 0 {
            Err::<(), EvalError>(EvalError::NegativeSquareRoot)
        } else {
            Ok::<(), EvalError>(())
        }),
        m matches OpModel::Logarithm(a) ==> spec_check_domain(m) == (if spec_numerator(a) <= 0 {
            Err::<(), EvalError>(EvalError::NonPositiveLogarithm)
        } else {
            Ok::<(), EvalError>(())
        }),
        m matches OpModel::NaturalLog(a) ==> spec_check_domain(m) == (if spec_numerator(a) <= 0 {
            Err::<(), EvalError>(EvalError::NonPositiveNaturalLogarithm)
        } else {
            Ok::<(), EvalError>(())
        }),
        m matches OpModel::Factorial(a) ==> spec_check_domain(m) == (if spec_numerator(a) < 0
            || spec_numerator(a) % spec_pow10(spec_frac_len(a)) != 0 {
            Err::<(), EvalError>(EvalError::FactorialUndefined)
        } else {
            Ok::<(), EvalError>(())
        }),
{
    match m {
        OpModel::Divide(_, b) => {
            lemma_zero_means_zero(b);
        },
        OpModel::SquareRoot(a) => {
            lemma_negative_means_negative(a);
        },
        OpModel::Logarithm(a) => {
            lemma_zero_means_zero(a);
            lemma_negative_means_negative(a);
        },
        OpModel::NaturalLog(a) => {
            lemma_zero_means_zero(a);
            lemma_negative_means_negative(a);
        },
        OpModel::Factorial(a) => {
            lemma_negative_means_negative(a);
            lemma_integer_means_whole(a);
        },
        _ => {},
    }
}

/// The domain check is pure: two checks of one and the same operation give
/// one and the same result.
pub proof fn lemma_check_domain_pure(m: OpModel, r1: Result<(), EvalError>, r2: Result<
    (),
    EvalError,
>)
    requires
        r1 == spec_check_domain(m),
        r2 == spec_check_domain(m),
    ensures
        r1 == r2,
{
}

} // verus!
