use func_calc::{Expr, MathConst, MathFunction};

fn constant(kind: &MathConst) -> f64 {
    match kind {
        MathConst::Pi => std::f64::consts::PI,
        MathConst::E => std::f64::consts::E,
    }
}

fn apply(kind: &MathFunction, x: f64) -> f64 {
    match kind {
        MathFunction::Sqrt => x.sqrt(),
        MathFunction::Sin => x.sin(),
        MathFunction::Cos => x.cos(),
        MathFunction::Tan => x.tan(),
        MathFunction::Asin => x.asin(),
        MathFunction::Acos => x.acos(),
        MathFunction::Atan => x.atan(),
        MathFunction::Log => x.log10(),
        MathFunction::Ln => x.ln(),
        MathFunction::ToRadian => x / 180.0 * constant(&MathConst::Pi),
        MathFunction::ToDegree => x / constant(&MathConst::Pi) * 180.0,
    }
}

fn eval(expr: &Expr) -> f64 {
    match expr {
        Expr::Number(text) => text.parse::<f64>().unwrap(),
        Expr::Add(left, right) => eval(left) + eval(right),
        Expr::Subtract(left, right) => eval(left) - eval(right),
        Expr::Multiply(left, right) => eval(left) * eval(right),
        Expr::Divide(left, right) => eval(left) / eval(right),
        Expr::Pow(left, right) => eval(left).powf(eval(right)),
        Expr::Func(kind, argument) => apply(kind, eval(argument)),
        Expr::Consts(kind) => constant(kind),
    }
}

fn value(text: &str) -> f64 {
    eval(&func_calc::calc(text).unwrap())
}

fn failure(text: &str) -> String {
    func_calc::calc(text).unwrap_err()
}

#[test]
fn calctest() {
    let inner_parse = |x: &str| value(x);
    assert_eq!(inner_parse("1+1.5"), 2.5);
    assert_eq!(inner_parse("1 +  1.5"), 2.5);
    assert_eq!(inner_parse("32 -23"), 9.0);
    assert_eq!(inner_parse("tan(pi()/3)"), (std::f64::consts::PI / 3.0).tan());
    assert_eq!(inner_parse("cos(pi()/3)"), (std::f64::consts::PI / 3.0).cos());
    assert_eq!(inner_parse("sin(pi()/3)"), (std::f64::consts::PI / 3.0).sin());
    assert_eq!(
        inner_parse("2+4.5*sin(pi()/3)"),
        2.0 + 4.5 * (std::f64::consts::PI / 3.0).sin()
    );
    assert_eq!(
        inner_parse("2+2*3*(2.4+3)+5/2"),
        2.0 + 2.0 * 3.0 * (2.4 + 3.0) + 5.0 / 2.0
    );
    assert_eq!(
        inner_parse("2+4.5*sin(pi()/2)"),
        2.0 + 4.5 * (std::f64::consts::PI / 2.0).sin()
    );
    assert_eq!(inner_parse("todegree(asin(sin(torad(60))))"), 60.0);
    assert_eq!(inner_parse("todegree(acos(cos(torad(60))))"), 60.0);
    assert_eq!(inner_parse("todegree(atan(tan(torad(60))))"), 60.0);
    assert_eq!(inner_parse("e()"), std::f64::consts::E);
    assert_eq!(inner_parse("pi()"), std::f64::consts::PI);
    assert_eq!(inner_parse("sqrt(4)+sqrt(9)"), 5.0);
    assert_eq!(inner_parse("sqrt(4)*sqrt(9)"), 6.0);
    assert_eq!(inner_parse("3^2+2^3"), 17.0);
    assert_eq!(inner_parse("ln(e()^2)"), 2.0);
    assert_eq!(inner_parse("log(1000)"), 3.0);
    assert_eq!(inner_parse("3^2/sqrt(9)"), 3.0);
    assert!((inner_parse("(ln(1000)-ln(100))/ln(1.1)") - 24.158857).abs() < 0.0001);
}

#[test]
fn four_operations_follow_precedence_from_the_left() {
    assert_eq!(value("1+2*3"), 7.0);
    assert_eq!(value("10-4-3"), 3.0);
    assert_eq!(value("100/10/5"), 2.0);
    assert_eq!(value("2*3+4*5-6/3"), 24.0);
    assert_eq!(value("8/4*2"), 4.0);
    assert_eq!(value("1-2+3"), 2.0);
}

#[test]
fn power_groups_to_the_right() {
    assert_eq!(value("2^3^2"), 512.0);
    assert_ne!(value("2^3^2"), 64.0);
    assert_eq!(value("(2^3)^2"), 64.0);
    assert_eq!(value("2*3^2"), 18.0);
    assert_eq!(value("2^2*3"), 12.0);
}

#[test]
fn spaces_do_not_matter() {
    assert_eq!(value("1 +  1.5"), value("1+1.5"));
    assert_eq!(value("1 +  1.5"), 2.5);
    assert_eq!(value(" ( 1 + 2 ) * 3 "), 9.0);
    assert_eq!(func_calc::calc("s i n ( 0 )"), func_calc::calc("sin(0)"));
}

#[test]
fn spaces_inside_a_number_are_deleted() {
    assert_eq!(value("1 2+3"), 15.0);
    assert_eq!(func_calc::calc("1 2+3"), func_calc::calc("12+3"));
}

#[test]
fn round_trips_through_functions() {
    assert!((value("todegree(asin(sin(torad(60))))") - 60.0).abs() < 1e-9);
    assert_eq!(value("ln(e()^2)"), 2.0);
    assert_eq!(value("log(1000)"), 3.0);
}

#[test]
fn parentheses_override_precedence() {
    assert_eq!(value("(1+2)*3"), 9.0);
    assert_eq!(value("1+2*3"), 7.0);
    assert_eq!(value("2^(1+2)"), 8.0);
    assert_eq!(value("((((7))))"), 7.0);
}

#[test]
fn malformed_input_is_an_error() {
    assert!(failure("(1+2").contains("closing parenthesis"));
    assert!(failure("foo(1)").contains("Unknown function"));
}

#[test]
fn evaluation_is_repeatable() {
    let tree = func_calc::calc("2+4.5*sin(pi()/3)^2/ln(7)").unwrap();
    assert_eq!(eval(&tree).to_bits(), eval(&tree).to_bits());
}

#[test]
fn concrete_scenarios() {
    assert_eq!(value("3^2+2^3"), 17.0);
    assert_eq!(value("sqrt(4)*sqrt(9)"), 6.0);
    assert_eq!(value("32 -23"), 9.0);
    assert_eq!(value("pi()"), std::f64::consts::PI);
    assert_eq!(value("e()"), std::f64::consts::E);
}

#[test]
fn conversions_between_degrees_and_radians() {
    assert_eq!(value("torad(180)"), std::f64::consts::PI);
    assert_eq!(value("todegree(pi())"), 180.0);
    assert_eq!(value("torad(90)"), 90.0 / 180.0 * std::f64::consts::PI);
}

#[test]
fn domain_errors_are_values() {
    assert_eq!(value("1/0"), f64::INFINITY);
    assert!(value("sqrt(0-1)").is_nan());
    assert!(value("asin(2)").is_nan());
    assert_eq!(value("ln(0)"), f64::NEG_INFINITY);
}

#[test]
fn literals_with_a_point_at_either_end() {
    assert_eq!(value("1."), 1.0);
    assert_eq!(value(".5"), 0.5);
    assert_eq!(value("007"), 7.0);
    assert_eq!(value("1.+.5"), 1.5);
}
