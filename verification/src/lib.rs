//! The expression engine of a small command-line scientific calculator.
//!
//! The library has two halves.  The recognizer classifies one trimmed line of
//! text — after case folding and textual substitution of the constants `pi`
//! and `e` — as either a binary operation (`number operator number`) or a
//! unary function call (`name`, optional parentheses, `number`), and returns
//! a typed [`Operation`] carrying the matched numeric literals.  The domain
//! checker decides, from those literals alone, which operations are outside
//! their mathematical domain (division by zero, square root of a negative
//! number, logarithm of a non-positive number, factorial of a negative or
//! fractional number).  The floating-point arithmetic itself is left to the
//! caller.
//!
//! The `laws` module proves the recognizer exact: a well-formed binary line
//! or function call is recognized as exactly the written operation on
//! exactly the written operand literals.  The `number` module grounds the
//! domain predicates in the numbers the literals denote, and the `eval`
//! module restates the domain table over those numbers.

pub mod eval;
pub mod laws;
pub mod number;
pub mod operation;
pub mod recognize;
pub mod text;

