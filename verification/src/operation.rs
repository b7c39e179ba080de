//! The typed operations the calculator supports, and their mathematical
//! model: the same variants over the operand literals as plain sequences.

use vstd::prelude::*;

use crate::number::Number;

verus! {

/// The closed set of supported computations, each carrying its numeric
/// operands as matched literals.  Five binary variants, eight unary ones.
#[derive(Debug, Clone, PartialEq, Eq)]
pub enum Operation {
    Add(Number, Number),
    Subtract(Number, Number),
    Multiply(Number, Number),
    Divide(Number, Number),
    Power(Number, Number),
    SquareRoot(Number),
    Sine(Number),
    Cosine(Number),
    Tangent(Number),
    Logarithm(Number),
    NaturalLog(Number),
    Factorial(Number),
    Absolute(Number),
}

/// The model of an [`Operation`]: the same variant, with each operand as the
/// sequence of characters of its literal.
pub enum OpModel {
    Add(Seq<char>, Seq<char>),
    Subtract(Seq<char>, Seq<char>),
    Multiply(Seq<char>, Seq<char>),
    Divide(Seq<char>, Seq<char>),
    Power(Seq<char>, Seq<char>),
    SquareRoot(Seq<char>),
    Sine(Seq<char>),
    Cosine(Seq<char>),
    Tangent(Seq<char>),
    Logarithm(Seq<char>),
    NaturalLog(Seq<char>),
    Factorial(Seq<char>),
    Absolute(Seq<char>),
}

impl View for Operation {
    type V = OpModel;

    open spec fn view(&self) -> OpModel {
        match *self {
            Operation::Add(a, b) => OpModel::Add(a@, b@),
            Operation::Subtract(a, b) => OpModel::Subtract(a@, b@),
            Operation::Multiply(a, b) => OpModel::Multiply(a@, b@),
            Operation::Divide(a, b) => OpModel::Divide(a@, b@),
            Operation::Power(a, b) => OpModel::Power(a@, b@),
            Operation::SquareRoot(a) => OpModel::SquareRoot(a@),
            Operation::Sine(a) => OpModel::Sine(a@),
            Operation::Cosine(a) => OpModel::Cosine(a@),
            Operation::Tangent(a) => OpModel::Tangent(a@),
            Operation::Logarithm(a) => OpModel::Logarithm(a@),
            Operation::NaturalLog(a) => OpModel::NaturalLog(a@),
            Operation::Factorial(a) => OpModel::Factorial(a@),
            Operation::Absolute(a) => OpModel::Absolute(a@),
        }
    }
}

impl Operation {
    /// Every operand literal is a well-formed number token.
    pub open spec fn wf(&self) -> bool {
        match *self {
            Operation::Add(a, b) => a.wf() && b.wf(),
            Operation::Subtract(a, b) => a.wf() && b.wf(),
            Operation::Multiply(a, b) => a.wf() && b.wf(),
            Operation::Divide(a, b) => a.wf() && b.wf(),
            Operation::Power(a, b) => a.wf() && b.wf(),
            Operation::SquareRoot(a) => a.wf(),
            Operation::Sine(a) => a.wf(),
            Operation::Cosine(a) => a.wf(),
            Operation::Tangent(a) => a.wf(),
            Operation::Logarithm(a) => a.wf(),
            Operation::NaturalLog(a) => a.wf(),
            Operation::Factorial(a) => a.wf(),
            Operation::Absolute(a) => a.wf(),
        }
    }
}

} // verus!
