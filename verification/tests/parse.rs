use func_calc::grammar::Callee;
use func_calc::parser::lookup;
use func_calc::{stparse, Expr, MathConst, MathFunction};

fn number(text: &str) -> Box<Expr> {
    Box::new(Expr::Number(text.to_string()))
}

fn failure(text: &str) -> String {
    stparse(text).unwrap_err()
}

#[test]
fn a_number_is_kept_as_written() {
    assert_eq!(stparse("1.50"), Ok(Expr::Number("1.50".to_string())));
    assert_eq!(stparse("007"), Ok(Expr::Number("007".to_string())));
    assert_eq!(stparse(".5"), Ok(Expr::Number(".5".to_string())));
    assert_eq!(stparse("5."), Ok(Expr::Number("5.".to_string())));
}

#[test]
fn sums_group_from_the_left() {
    assert_eq!(
        stparse("1-2+3"),
        Ok(Expr::Add(Box::new(Expr::Subtract(number("1"), number("2"))), number("3")))
    );
}

#[test]
fn products_group_from_the_left() {
    assert_eq!(
        stparse("8/4*2"),
        Ok(Expr::Multiply(Box::new(Expr::Divide(number("8"), number("4"))), number("2")))
    );
}

#[test]
fn products_bind_tighter_than_sums() {
    assert_eq!(
        stparse("1+2*3"),
        Ok(Expr::Add(number("1"), Box::new(Expr::Multiply(number("2"), number("3")))))
    );
    assert_eq!(
        stparse("1*2-3"),
        Ok(Expr::Subtract(Box::new(Expr::Multiply(number("1"), number("2"))), number("3")))
    );
}

#[test]
fn powers_group_from_the_right() {
    assert_eq!(
        stparse("2^3^2"),
        Ok(Expr::Pow(number("2"), Box::new(Expr::Pow(number("3"), number("2")))))
    );
}

#[test]
fn powers_bind_tighter_than_products() {
    assert_eq!(
        stparse("2*3^2"),
        Ok(Expr::Multiply(number("2"), Box::new(Expr::Pow(number("3"), number("2")))))
    );
}

#[test]
fn a_group_is_one_operand() {
    assert_eq!(
        stparse("(1+2)*3"),
        Ok(Expr::Multiply(Box::new(Expr::Add(number("1"), number("2"))), number("3")))
    );
    assert_eq!(
        stparse("(1+2)^3"),
        Ok(Expr::Pow(Box::new(Expr::Add(number("1"), number("2"))), number("3")))
    );
    assert_eq!(stparse("((7))"), Ok(Expr::Number("7".to_string())));
}

#[test]
fn functions_take_one_expression() {
    assert_eq!(
        stparse("sqrt(1+2)"),
        Ok(Expr::Func(MathFunction::Sqrt, Box::new(Expr::Add(number("1"), number("2")))))
    );
    assert_eq!(stparse("torad(60)"), Ok(Expr::Func(MathFunction::ToRadian, number("60"))));
    assert_eq!(stparse("log(10)"), Ok(Expr::Func(MathFunction::Log, number("10"))));
}

#[test]
fn constants_take_nothing() {
    assert_eq!(stparse("pi()"), Ok(Expr::Consts(MathConst::Pi)));
    assert_eq!(stparse("e()"), Ok(Expr::Consts(MathConst::E)));
    assert_eq!(failure("pi(1)"), "Expected closing parenthesis after pi");
    assert_eq!(failure("e(e())"), "Expected closing parenthesis after e");
}

#[test]
fn names_are_folded_to_lowercase() {
    assert_eq!(stparse("SQRT(4)"), stparse("sqrt(4)"));
    assert_eq!(stparse("Pi()"), Ok(Expr::Consts(MathConst::Pi)));
    assert_eq!(stparse("ToDegree(1)"), Ok(Expr::Func(MathFunction::ToDegree, number("1"))));
    assert_eq!(failure("FOO(1)"), "Unknown function: foo");
}

#[test]
fn names_may_hold_any_alphabetic_character() {
    assert_eq!(failure("\u{3a3}(1)"), "Unknown function: \u{3c3}");
    assert_eq!(failure("\u{130}(1)"), "Unknown function: i\u{307}");
    assert_eq!(failure("sin\u{e9}(1)"), "Unknown function: sin\u{e9}");
}

#[test]
fn a_name_ends_at_a_digit() {
    assert_eq!(failure("log10(100)"), "Expected parenthesis after log");
}

#[test]
fn one_space_may_stand_before_the_parenthesis() {
    assert_eq!(stparse("sin (0)"), Ok(Expr::Func(MathFunction::Sin, number("0"))));
    assert_eq!(stparse("pi ()"), Ok(Expr::Consts(MathConst::Pi)));
    assert_eq!(failure("sin  (0)"), "Expected parenthesis after sin");
    assert_eq!(failure("sin 0)"), "Expected parenthesis after sin");
}

#[test]
fn a_name_needs_its_parenthesis() {
    assert_eq!(failure("sin"), "Expected parenthesis after sin");
    assert_eq!(failure("sin+1"), "Expected parenthesis after sin");
    assert_eq!(failure("foo"), "Expected parenthesis after foo");
    assert_eq!(failure("pi"), "Expected parenthesis after pi");
    assert_eq!(failure("2*x"), "Expected parenthesis after x");
}

#[test]
fn an_unknown_name_is_an_error() {
    assert_eq!(failure("foo(1)"), "Unknown function: foo");
    assert_eq!(failure("sine(1)"), "Unknown function: sine");
    assert_eq!(failure("1+foo("), "Unknown function: foo");
}

#[test]
fn a_missing_closing_parenthesis_is_an_error() {
    assert_eq!(failure("(1+2"), "Expected closing parenthesis");
    assert_eq!(failure("(1+2]"), "Expected closing parenthesis");
    assert_eq!(failure("sin(1"), "Expected closing parenthesis after sin");
    assert_eq!(failure("sqrt(4]"), "Expected closing parenthesis after sqrt");
    assert_eq!(failure("pi("), "Expected closing parenthesis after pi");
}

#[test]
fn a_missing_operand_is_an_error() {
    assert_eq!(failure(""), "Unexpected character");
    assert_eq!(failure("1+"), "Unexpected character");
    assert_eq!(failure("1*"), "Unexpected character");
    assert_eq!(failure("2^"), "Unexpected character");
    assert_eq!(failure("()"), "Unexpected character");
    assert_eq!(failure("sin()"), "Unexpected character");
    assert_eq!(failure("1+*2"), "Unexpected character");
    assert_eq!(failure("#"), "Unexpected character");
    assert_eq!(failure(" 1"), "Unexpected character");
}

#[test]
fn there_is_no_unary_minus() {
    assert_eq!(failure("-1"), "Unexpected character");
    assert_eq!(failure("2*-1"), "Unexpected character");
    assert_eq!(failure("+1"), "Unexpected character");
}

#[test]
fn a_malformed_number_fails_as_the_standard_conversion_does() {
    for text in ["1.2.3", ".", "1..2", "..", "1.2."] {
        let expected = text.parse::<f64>().unwrap_err().to_string();
        assert_eq!(failure(text), expected);
        assert_eq!(failure(text), "invalid float literal");
    }
    assert_eq!(failure("2+1.2.3"), "invalid float literal");
}

#[test]
fn every_accepted_number_converts() {
    for text in ["0", "1.", ".5", "1.5", "000.000", "123456789012345678901234567890.5"] {
        let parsed = stparse(text);
        assert_eq!(parsed, Ok(Expr::Number(text.to_string())));
        assert!(text.parse::<f64>().is_ok());
    }
}

#[test]
fn the_first_failure_wins() {
    assert_eq!(failure("1.2.3+foo(1)"), "invalid float literal");
    assert_eq!(failure("foo(1.2.3)"), "Unknown function: foo");
    assert_eq!(failure("sin(1.2.3"), "invalid float literal");
    assert_eq!(failure("(1+"), "Unexpected character");
}

#[test]
fn what_follows_a_complete_expression_is_ignored() {
    assert_eq!(
        stparse("1+2)"),
        Ok(Expr::Add(number("1"), number("2")))
    );
    assert_eq!(stparse("2 3"), Ok(Expr::Number("2".to_string())));
    assert_eq!(stparse("2#"), Ok(Expr::Number("2".to_string())));
    assert_eq!(stparse("2(3)"), Ok(Expr::Number("2".to_string())));
    assert_eq!(stparse("2pi()"), Ok(Expr::Number("2".to_string())));
}

#[test]
fn lookup_knows_the_names() {
    assert_eq!(lookup(&"sqrt".to_string()), Some(Callee::Function(MathFunction::Sqrt)));
    assert_eq!(lookup(&"sin".to_string()), Some(Callee::Function(MathFunction::Sin)));
    assert_eq!(lookup(&"cos".to_string()), Some(Callee::Function(MathFunction::Cos)));
    assert_eq!(lookup(&"tan".to_string()), Some(Callee::Function(MathFunction::Tan)));
    assert_eq!(lookup(&"asin".to_string()), Some(Callee::Function(MathFunction::Asin)));
    assert_eq!(lookup(&"acos".to_string()), Some(Callee::Function(MathFunction::Acos)));
    assert_eq!(lookup(&"atan".to_string()), Some(Callee::Function(MathFunction::Atan)));
    assert_eq!(lookup(&"log".to_string()), Some(Callee::Function(MathFunction::Log)));
    assert_eq!(lookup(&"ln".to_string()), Some(Callee::Function(MathFunction::Ln)));
    assert_eq!(lookup(&"torad".to_string()), Some(Callee::Function(MathFunction::ToRadian)));
    assert_eq!(lookup(&"todegree".to_string()), Some(Callee::Function(MathFunction::ToDegree)));
    assert_eq!(lookup(&"pi".to_string()), Some(Callee::Constant(MathConst::Pi)));
    assert_eq!(lookup(&"e".to_string()), Some(Callee::Constant(MathConst::E)));
}

#[test]
fn lookup_knows_nothing_else() {
    assert_eq!(lookup(&"".to_string()), None);
    assert_eq!(lookup(&"SIN".to_string()), None);
    assert_eq!(lookup(&"sinh".to_string()), None);
    assert_eq!(lookup(&"log10".to_string()), None);
    assert_eq!(lookup(&"exp".to_string()), None);
}
