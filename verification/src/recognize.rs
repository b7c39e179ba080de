//! The recognizer: classification of one trimmed line of text as a binary
//! operation or a unary function call, after case folding and textual
//! substitution of the named constants.
//!
//! The grammar is flat and anchored to the whole line.  A binary operation is
//! a number token, optional whitespace, one of the operator symbols
//! `+ - * / ^`, optional whitespace, and a second number token.  A function
//! call is one of the keywords `sqrt sin cos tan log ln abs fact`, optional
//! whitespace, an optional opening parenthesis, a number token, and an
//! optional closing parenthesis.  Each parenthesis is optional on its own.
//! Trailing or leading characters beyond either shape make the line invalid.

use vstd::prelude::*;

use crate::number::{lemma_scan_number_subrange, scan_number, spec_scan_number, Number};
use crate::operation::{OpModel, Operation};
use crate::text::{
    copy_range, is_operator_char, is_space_char, lower_chars, occurs_at, replace_chars,
    spec_is_operator, spec_is_space, spec_lower, spec_replace, str_to_chars,
};

verus! {

/// Failure to recognize a line as any supported operation shape.
#[derive(Debug, Clone, Copy, PartialEq, Eq)]
pub enum ClassifyError {
    /// Neither the binary-operation pattern nor the function-call pattern
    /// matched the whole normalized line.
    InvalidExpressionFormat,
}

/// The eight function keywords.
#[derive(Debug, Clone, Copy, PartialEq, Eq)]
pub enum FuncKind {
    Sqrt,
    Sin,
    Cos,
    Tan,
    Log,
    Ln,
    Abs,
    Fact,
}

/// The decimal expansion that replaces the token `pi`.
pub open spec fn pi_expansion() -> Seq<char> {
    "3.141592653589793"@
}

/// The decimal expansion that replaces the letter `e`.
pub open spec fn e_expansion() -> Seq<char> {
    "2.718281828459045"@
}

/// The normalized form of a raw line: case folded, then every occurrence of
/// `pi` replaced by the expansion of the circle constant, then every
/// occurrence of the letter `e` replaced by the expansion of Euler's number.
///
/// The substitution is deliberately naive text replacement, not token
/// replacement: an `e` inside any word is replaced too.  No function keyword
/// contains the letter `e`, so the keywords survive it, but scientific
/// notation such as `2e3` turns into one long bare number and matches
/// neither pattern.
pub open spec fn spec_normalize(s: Seq<char>) -> Seq<char> {
    spec_replace(spec_replace(spec_lower(s), "pi"@, pi_expansion()), "e"@, e_expansion())
}

/// First position at or after `i` that does not hold whitespace.
pub open spec fn spec_skip_spaces(s: Seq<char>, i: int) -> int
    decreases s.len() - i,
{
    if i < s.len() && spec_is_space(s[i]) {
        spec_skip_spaces(s, i + 1)
    } else {
        i
    }
}

/// Whether `p` is a prefix of `s`.
pub open spec fn spec_is_prefix(s: Seq<char>, p: Seq<char>) -> bool {
    p.len() <= s.len() && s.subrange(0, p.len() as int) == p
}

/// The function keyword standing at the start of `s`, with its length.  No
/// keyword is a prefix of another, so at most one can match.
pub open spec fn spec_keyword(s: Seq<char>) -> Option<(FuncKind, int)> {
    if spec_is_prefix(s, "sqrt"@) {
        Some((FuncKind::Sqrt, "sqrt"@.len() as int))
    } else if spec_is_prefix(s, "sin"@) {
        Some((FuncKind::Sin, "sin"@.len() as int))
    } else if spec_is_prefix(s, "cos"@) {
        Some((FuncKind::Cos, "cos"@.len() as int))
    } else if spec_is_prefix(s, "tan"@) {
        Some((FuncKind::Tan, "tan"@.len() as int))
    } else if spec_is_prefix(s, "log"@) {
        Some((FuncKind::Log, "log"@.len() as int))
    } else if spec_is_prefix(s, "ln"@) {
        Some((FuncKind::Ln, "ln"@.len() as int))
    } else if spec_is_prefix(s, "abs"@) {
        Some((FuncKind::Abs, "abs"@.len() as int))
    } else if spec_is_prefix(s, "fact"@) {
        Some((FuncKind::Fact, "fact"@.len() as int))
    } else {
        None
    }
}

/// The decomposition of `s` as a whole-line binary operation: the first
/// operand's literal, the operator symbol, and the second operand's literal.
///
/// The decomposition is forced: a number token can only end at a digit, and
/// neither whitespace nor an operator symbol can continue one, so the first
/// token's extent, the operator's position and the second token's start are
/// each determined by the text.
pub open spec fn spec_match_binary(s: Seq<char>) -> Option<(Seq<char>, char, Seq<char>)> {
    match spec_scan_number(s, 0) {
        Some(i) => {
            let p = spec_skip_spaces(s, i);
            if p < s.len() && spec_is_operator(s[p]) {
                let q = spec_skip_spaces(s, p + 1);
                match spec_scan_number(s, q) {
                    Some(r) => if r == s.len() {
                        Some((s.subrange(0, i), s[p], s.subrange(q, s.len() as int)))
                    } else {
                        None
                    },
                    None => None,
                }
            } else {
                None
            }
        },
        None => None,
    }
}

/// The decomposition of `s` as a whole-line function call: the keyword and
/// the operand's literal.
pub open spec fn spec_match_func(s: Seq<char>) -> Option<(FuncKind, Seq<char>)> {
    match spec_keyword(s) {
        Some((f, kl)) => {
            let p = spec_skip_spaces(s, kl);
            let q = if p < s.len() && s[p] == '(' {
                p + 1
            } else {
                p
            };
            match spec_scan_number(s, q) {
                Some(r) => if r == s.len() || (r + 1 == s.len() && s[r] == ')') {
                    Some((f, s.subrange(q, r)))
                } else {
                    None
                },
                None => None,
            }
        },
        None => None,
    }
}

/// The operation denoted by an operator symbol and two operand literals.
pub open spec fn spec_binary_op(c: char, a: Seq<char>, b: Seq<char>) -> OpModel {
    if c == '+' {
        OpModel::Add(a, b)
    } else if c == '-' {
        OpModel::Subtract(a, b)
    } else if c == '*' {
        OpModel::Multiply(a, b)
    } else if c == '/' {
        OpModel::Divide(a, b)
    } else {
        OpModel::Power(a, b)
    }
}

/// The operation denoted by a function keyword and its operand literal.
pub open spec fn spec_func_op(f: FuncKind, x: Seq<char>) -> OpModel {
    match f {
        FuncKind::Sqrt => OpModel::SquareRoot(x),
        FuncKind::Sin => OpModel::Sine(x),
        FuncKind::Cos => OpModel::Cosine(x),
        FuncKind::Tan => OpModel::Tangent(x),
        FuncKind::Log => OpModel::Logarithm(x),
        FuncKind::Ln => OpModel::NaturalLog(x),
        FuncKind::Abs => OpModel::Absolute(x),
        FuncKind::Fact => OpModel::Factorial(x),
    }
}

/// What recognizing a raw line yields: the binary pattern is tried on the
/// normalized line first, then the function pattern; if neither matches the
/// whole line, classification fails.
pub open spec fn spec_recognize(s: Seq<char>) -> Result<OpModel, ClassifyError> {
    let n = spec_normalize(s);
    match spec_match_binary(n) {
        Some((a, c, b)) => Ok(spec_binary_op(c, a, b)),
        None => match spec_match_func(n) {
            Some((f, x)) => Ok(spec_func_op(f, x)),
            None => Err(ClassifyError::InvalidExpressionFormat),
        },
    }
}

pub(crate) fn skip_spaces(v: &Vec<char>, i: usize) -> (r: usize)
    requires
        i <= v@.len(),
    ensures
        r as int == spec_skip_spaces(v@, i as int),
        i <= r <= v@.len(),
{
    let mut j: usize = i;
    while j < v.len() && is_space_char(v[j])
        invariant
            i <= j <= v@.len(),
            spec_skip_spaces(v@, i as int) == spec_skip_spaces(v@, j as int),
        decreases v@.len() - j,
    {
        j = j + 1;
    }
    j
}

fn keyword(v: &Vec<char>) -> (r: Option<(FuncKind, usize)>)
    ensures
        match r {
            Some((f, kl)) => spec_keyword(v@) == Some((f, kl as int)) && kl <= v@.len(),
            None => spec_keyword(v@) is None,
        },
{
    let p = str_to_chars("sqrt");
    if occurs_at(v, 0, &p) {
        return Some((FuncKind::Sqrt, p.len()));
    }
    let p = str_to_chars("sin");
    if occurs_at(v, 0, &p) {
        return Some((FuncKind::Sin, p.len()));
    }
    let p = str_to_chars("cos");
    if occurs_at(v, 0, &p) {
        return Some((FuncKind::Cos, p.len()));
    }
    let p = str_to_chars("tan");
    if occurs_at(v, 0, &p) {
        return Some((FuncKind::Tan, p.len()));
    }
    let p = str_to_chars("log");
    if occurs_at(v, 0, &p) {
        return Some((FuncKind::Log, p.len()));
    }
    let p = str_to_chars("ln");
    if occurs_at(v, 0, &p) {
        return Some((FuncKind::Ln, p.len()));
    }
    let p = str_to_chars("abs");
    if occurs_at(v, 0, &p) {
        return Some((FuncKind::Abs, p.len()));
    }
    let p = str_to_chars("fact");
    if occurs_at(v, 0, &p) {
        return Some((FuncKind::Fact, p.len()));
    }
    None
}

fn match_binary(v: &Vec<char>) -> (r: Option<(Number, char, Number)>)
    ensures
        match r {
            Some((a, c, b)) => spec_match_binary(v@) == Some((a@, c, b@)) && a.wf() && b.wf(),
            None => spec_match_binary(v@) is None,
        },
{
    match scan_number(v, 0) {
        Some(i) => {
            let p = skip_spaces(v, i);
            if p < v.len() && is_operator_char(v[p]) {
                let q = skip_spaces(v, p + 1);
                match scan_number(v, q) {
                    Some(e) => {
                        if e == v.len() {
                            let a = Number::new(copy_range(v, 0, i));
                            let b = Number::new(copy_range(v, q, e));
                            proof {
                                lemma_scan_number_subrange(v@, 0, i as int);
                                lemma_scan_number_subrange(v@, q as int, v@.len() as int);
                            }
                            Some((a, v[p], b))
                        } else {
                            None
                        }
                    },
                    None => None,
                }
            } else {
                None
            }
        },
        None => None,
    }
}

fn match_func(v: &Vec<char>) -> (r: Option<(FuncKind, Number)>)
    ensures
        match r {
            Some((f, x)) => spec_match_func(v@) == Some((f, x@)) && x.wf(),
            None => spec_match_func(v@) is None,
        },
{
    match keyword(v) {
        Some((f, kl)) => {
            let p = skip_spaces(v, kl);
            let q = if p < v.len() && v[p] == '(' {
                p + 1
            } else {
                p
            };
            match scan_number(v, q) {
                Some(e) => {
                    if e == v.len() || (e < v.len() && e + 1 == v.len() && v[e] == ')') {
                        let x = Number::new(copy_range(v, q, e));
                        proof {
                            lemma_scan_number_subrange(v@, q as int, e as int);
                        }
                        Some((f, x))
                    } else {
                        None
                    }
                },
                None => None,
            }
        },
        None => None,
    }
}

fn binary_operation(c: char, a: Number, b: Number) -> (r: Operation)
    ensures
        r@ == spec_binary_op(c, a@, b@),
        a.wf() && b.wf() ==> r.wf(),
{
    if c == '+' {
        Operation::Add(a, b)
    } else if c == '-' {
        Operation::Subtract(a, b)
    } else if c == '*' {
        Operation::Multiply(a, b)
    } else if c == '/' {
        Operation::Divide(a, b)
    } else {
        Operation::Power(a, b)
    }
}

fn func_operation(f: FuncKind, x: Number) -> (r: Operation)
    ensures
        r@ == spec_func_op(f, x@),
        x.wf() ==> r.wf(),
{
    match f {
        FuncKind::Sqrt => Operation::SquareRoot(x),
        FuncKind::Sin => Operation::Sine(x),
        FuncKind::Cos => Operation::Cosine(x),
        FuncKind::Tan => Operation::Tangent(x),
        FuncKind::Log => Operation::Logarithm(x),
        FuncKind::Ln => Operation::NaturalLog(x),
        FuncKind::Abs => Operation::Absolute(x),
        FuncKind::Fact => Operation::Factorial(x),
    }
}

/// Classification of one raw line.
///
/// The result is a function of the line's characters alone — there is no
/// hidden state, so identical lines always classify identically.  On success
/// the returned operation's model is exactly what [`spec_recognize`] gives,
/// and every operand literal is a well-formed number token; on failure
/// [`spec_recognize`] gives exactly the returned error.
pub fn recognize(line: &str) -> (r: Result<Operation, ClassifyError>)
    ensures
        match r {
            Ok(op) => spec_recognize(line@) == Ok::<OpModel, ClassifyError>(op@) && op.wf(),
            Err(e) => spec_recognize(line@) == Err::<OpModel, ClassifyError>(e),
        },
{
    let chars = str_to_chars(line);
    let lowered = lower_chars(&chars);
    let pi_pat = str_to_chars("pi");
    let pi_rep = str_to_chars("3.141592653589793");
    let e_pat = str_to_chars("e");
    let e_rep = str_to_chars("2.718281828459045");
    proof {
        reveal_strlit("pi");
        reveal_strlit("e");
    }
    let step = replace_chars(&lowered, &pi_pat, &pi_rep);
    let n = replace_chars(&step, &e_pat, &e_rep);
    match match_binary(&n) {
        Some((a, c, b)) => Ok(binary_operation(c, a, b)),
        None => match match_func(&n) {
            Some((f, x)) => Ok(func_operation(f, x)),
            None => Err(ClassifyError::InvalidExpressionFormat),
        },
    }
}

/// Classification is pure: two classifications of one and the same line give
/// one and the same result, whether operation or error.
pub proof fn lemma_recognize_pure(s: Seq<char>, r1: Result<OpModel, ClassifyError>, r2: Result<
    OpModel,
    ClassifyError,
>)
    requires
        r1 == spec_recognize(s),
        r2 == spec_recognize(s),
    ensures
        r1 == r2,
{
}

impl ClassifyError {
    /// The human-readable message for this classification failure.
    pub fn message(&self) -> (r: String)
        ensures
            r@ == "Invalid expression format"@,
    {
        "Invalid expression format".to_owned()
    }
}

} // verus!
