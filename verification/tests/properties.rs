//! End-to-end properties: recognized lines evaluate to the expected numbers
//! under floating-point arithmetic, and both library functions are pure.
//!
//! The library confines itself to classification and domain checking; the
//! floating-point arithmetic here stands in for the calculator's caller.

use sci_calc::eval::check_domain;
use sci_calc::number::Number;
use sci_calc::operation::Operation;
use sci_calc::recognize::recognize;

fn value(n: &Number) -> f64 {
    let s: String = n.literal().iter().collect();
    s.parse().unwrap()
}

fn evaluate(op: &Operation) -> Result<f64, String> {
    if let Err(e) = check_domain(op) {
        return Err(e.message());
    }
    Ok(match op {
        Operation::Add(a, b) => value(a) + value(b),
        Operation::Subtract(a, b) => value(a) - value(b),
        Operation::Multiply(a, b) => value(a) * value(b),
        Operation::Divide(a, b) => value(a) / value(b),
        Operation::Power(a, b) => value(a).powf(value(b)),
        Operation::SquareRoot(a) => value(a).sqrt(),
        Operation::Sine(a) => value(a).to_radians().sin(),
        Operation::Cosine(a) => value(a).to_radians().cos(),
        Operation::Tangent(a) => value(a).to_radians().tan(),
        Operation::Logarithm(a) => value(a).log10(),
        Operation::NaturalLog(a) => value(a).ln(),
        Operation::Factorial(a) => {
            let n = value(a) as u64;
            (1..=n).fold(1.0, |acc, x| acc * x as f64)
        }
        Operation::Absolute(a) => value(a).abs(),
    })
}

fn run(line: &str) -> Result<f64, String> {
    match recognize(line) {
        Ok(op) => evaluate(&op),
        Err(e) => Err(e.message()),
    }
}

#[test]
fn binary_round_trips_match_direct_arithmetic() {
    assert_eq!(run("2 + 2"), Ok(4.0));
    assert_eq!(run("10 / 4"), Ok(2.5));
    assert_eq!(run("7 - 9.5"), Ok(-2.5));
    assert_eq!(run("3 * 4"), Ok(12.0));
    assert_eq!(run("2 ^ 3"), Ok(8.0));
    assert_eq!(run("2 ^ -1"), Ok(0.5));
    assert_eq!(run("-5-2"), Ok(-7.0));
}

#[test]
fn division_by_zero_reports_its_error() {
    assert_eq!(run("10 / 0"), Err("Division by zero!".to_string()));
}

#[test]
fn square_root_round_trip_and_domain() {
    assert_eq!(run("sqrt 16"), Ok(4.0));
    assert_eq!(
        run("sqrt -4"),
        Err("Cannot calculate square root of negative number!".to_string())
    );
}

#[test]
fn sine_converts_degrees_to_radians() {
    let r = run("sin 90").unwrap();
    assert!((r - 1.0).abs() < 1e-12, "sin 90 evaluated to {}", r);
    let c = run("cos 180").unwrap();
    assert!((c + 1.0).abs() < 1e-12, "cos 180 evaluated to {}", c);
}

#[test]
fn factorial_round_trip_and_domain() {
    assert_eq!(run("fact 5"), Ok(120.0));
    assert_eq!(
        run("fact -1"),
        Err("Factorial only defined for non-negative integers!".to_string())
    );
    assert_eq!(
        run("fact 2.5"),
        Err("Factorial only defined for non-negative integers!".to_string())
    );
}

#[test]
fn pi_substitution_evaluates_to_three_pi() {
    let r = run("3 * pi").unwrap();
    assert!((r - 3.0 * std::f64::consts::PI).abs() < 1e-12, "3 * pi evaluated to {}", r);
}

#[test]
fn malformed_input_reports_without_panicking() {
    assert_eq!(run("banana"), Err("Invalid expression format".to_string()));
    assert_eq!(run("2 + "), Err("Invalid expression format".to_string()));
    assert_eq!(run("sqrt"), Err("Invalid expression format".to_string()));
}

#[test]
fn repeated_calls_give_identical_results() {
    let lines = ["2 + 2", "10 / 0", "sqrt -4", "fact 2.5", "banana", "3 * pi", "sin 90"];
    for line in lines {
        let first = recognize(line);
        // unrelated work in between must not influence the next call
        let _ = recognize("0 - 0");
        let second = recognize(line);
        assert_eq!(first, second);
        if let Ok(op) = first {
            assert_eq!(check_domain(&op), check_domain(&op));
            assert_eq!(run(line), run(line));
        }
    }
}
