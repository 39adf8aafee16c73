use math::engine::{Engine, ShuntingYardEngine};
use math::error::Error;
use math::number::Number;
use math::token::{Bracket, Operator, Token};
use math::validation::validate;
use math::variable::{Environment, Variable};

fn num(v: i64) -> Token {
    Token::Number(Number::from_int(v))
}

fn op(o: Operator) -> Token {
    Token::Operator(o)
}

fn open() -> Token {
    Token::Bracket(Bracket::ParenLeft)
}

fn close() -> Token {
    Token::Bracket(Bracket::ParenRight)
}

fn id(name: &str) -> Token {
    Token::Id(name.to_string())
}

fn eval(tokens: &[Token], env: &Environment) -> Result<Number, Error> {
    let mut engine = ShuntingYardEngine::new();
    engine.evaluate(tokens, env)
}

fn value(r: Result<Number, Error>) -> (i64, i64) {
    let n = r.expect("evaluation failed");
    (n.numerator(), n.denominator())
}

fn env_with_max() -> Environment {
    let mut env = Environment::new();
    env.insert("max".to_string(), Variable::Max(2));
    env
}

#[test]
fn single_literal_is_returned_unchanged() {
    let env = Environment::new();
    assert_eq!(value(eval(&[num(42)], &env)), (42, 1));
    assert_eq!(value(eval(&[num(-7)], &env)), (-7, 1));
    let half = Number::new(1, 2).unwrap();
    assert_eq!(value(eval(&[Token::Number(half)], &env)), (1, 2));
}

#[test]
fn each_binary_operator() {
    let env = Environment::new();
    assert_eq!(value(eval(&[num(7), op(Operator::Plus), num(2)], &env)), (9, 1));
    assert_eq!(value(eval(&[num(7), op(Operator::Minus), num(2)], &env)), (5, 1));
    assert_eq!(value(eval(&[num(7), op(Operator::Multiply), num(2)], &env)), (14, 1));
    assert_eq!(value(eval(&[num(7), op(Operator::Divide), num(2)], &env)), (7, 2));
    assert_eq!(value(eval(&[num(7), op(Operator::Power), num(2)], &env)), (49, 1));
}

#[test]
fn multiplication_binds_tighter_than_addition() {
    let env = Environment::new();
    let t = [num(2), op(Operator::Plus), num(3), op(Operator::Multiply), num(4)];
    assert_eq!(value(eval(&t, &env)), (14, 1));
}

#[test]
fn equal_precedence_groups_left_to_right() {
    let env = Environment::new();
    let t = [num(8), op(Operator::Minus), num(3), op(Operator::Minus), num(2)];
    assert_eq!(value(eval(&t, &env)), (3, 1));
}

#[test]
fn power_is_left_associative() {
    let env = Environment::new();
    let t = [num(2), op(Operator::Power), num(3), op(Operator::Power), num(2)];
    assert_eq!(value(eval(&t, &env)), (64, 1));
}

#[test]
fn parentheses_override_precedence() {
    let env = Environment::new();
    let t = [open(), num(2), op(Operator::Plus), num(3), close(), op(Operator::Multiply), num(4)];
    assert_eq!(value(eval(&t, &env)), (20, 1));
}

#[test]
fn factorial_of_five() {
    let env = Environment::new();
    assert_eq!(value(eval(&[num(5), Token::FactorialSign], &env)), (120, 1));
    assert_eq!(value(eval(&[num(0), Token::FactorialSign], &env)), (1, 1));
}

#[test]
fn factorial_outside_its_domain_fails() {
    let env = Environment::new();
    assert_eq!(eval(&[num(-3), Token::FactorialSign], &env).unwrap_err(), Error::ArithmeticDomain);
    let half = Number::new(1, 2).unwrap();
    assert_eq!(
        eval(&[Token::Number(half), Token::FactorialSign], &env).unwrap_err(),
        Error::ArithmeticDomain
    );
    assert_eq!(eval(&[num(21), Token::FactorialSign], &env).unwrap_err(), Error::ArithmeticDomain);
    assert_eq!(eval(&[Token::FactorialSign], &env).unwrap_err(), Error::MalformedExpression);
}

#[test]
fn function_call_with_two_arguments() {
    let env = env_with_max();
    let t = [id("max"), open(), num(3), Token::Comma, num(7), close()];
    assert_eq!(value(eval(&t, &env)), (7, 1));
    let t = [id("max"), open(), num(9), Token::Comma, num(7), close(), op(Operator::Plus), num(1)];
    assert_eq!(value(eval(&t, &env)), (10, 1));
}

#[test]
fn function_call_with_too_few_arguments_fails() {
    let env = env_with_max();
    let t = [id("max"), open(), num(3), close()];
    assert_eq!(eval(&t, &env).unwrap_err(), Error::MalformedExpression);
    let mut engine = ShuntingYardEngine::new();
    assert_eq!(engine.execute(&t, &env).unwrap_err(), Error::ArityMismatch);
    assert_eq!(engine.validate_tokens(&t, &env).unwrap_err(), Error::ArityMismatch);
}

#[test]
fn min_and_constants() {
    let mut env = Environment::new();
    env.insert("min".to_string(), Variable::Min(3));
    env.insert("k".to_string(), Variable::Constant(Number::from_int(10)));
    let t = [id("min"), open(), num(4), Token::Comma, num(-2), Token::Comma, num(5), close()];
    assert_eq!(value(eval(&t, &env)), (-2, 1));
    let t = [id("k"), open(), close(), op(Operator::Multiply), num(3)];
    assert_eq!(value(eval(&t, &env)), (30, 1));
}

#[test]
fn rebinding_a_name_replaces_it() {
    let mut env = Environment::new();
    env.insert("k".to_string(), Variable::Constant(Number::from_int(1)));
    env.insert("k".to_string(), Variable::Constant(Number::from_int(2)));
    assert_eq!(value(eval(&[id("k"), open(), close()], &env)), (2, 1));
}

#[test]
fn division_by_zero_fails() {
    let env = Environment::new();
    let t = [num(5), op(Operator::Divide), num(0)];
    assert_eq!(eval(&t, &env).unwrap_err(), Error::ArithmeticDomain);
}

#[test]
fn empty_input_gives_zero() {
    let env = Environment::new();
    assert_eq!(value(eval(&[], &env)), (0, 1));
}

#[test]
fn engine_reuse_matches_fresh_engines() {
    let env = Environment::new();
    let first = [num(2), op(Operator::Plus), num(3), op(Operator::Multiply)];
    let second = [num(8), op(Operator::Minus), num(3), op(Operator::Minus), num(2)];
    let mut engine = ShuntingYardEngine::default();
    assert_eq!(engine.evaluate(&first, &env).unwrap_err(), eval(&first, &env).unwrap_err());
    assert_eq!(value(engine.evaluate(&second, &env)), value(eval(&second, &env)));
    assert_eq!(value(engine.evaluate(&second, &env)), (3, 1));
}

#[test]
fn undefined_variable_fails() {
    let env = Environment::new();
    let t = [id("nope"), open(), close()];
    assert_eq!(eval(&t, &env).unwrap_err(), Error::UndefinedVariable);
}

#[test]
fn vertical_line_is_unsupported() {
    let env = Environment::new();
    let t = [Token::Bracket(Bracket::VerticalLine), num(3), Token::Bracket(Bracket::VerticalLine)];
    assert_eq!(eval(&t, &env).unwrap_err(), Error::UnsupportedFeature);
}

#[test]
fn malformed_inputs_fail_without_panicking() {
    let env = Environment::new();
    assert_eq!(eval(&[num(2), close()], &env).unwrap_err(), Error::MalformedExpression);
    assert_eq!(eval(&[open(), num(2)], &env).unwrap_err(), Error::MalformedExpression);
    assert_eq!(eval(&[num(2), op(Operator::Plus)], &env).unwrap_err(), Error::MalformedExpression);
    assert_eq!(eval(&[num(2), num(3)], &env).unwrap_err(), Error::MalformedExpression);
}

#[test]
fn rational_arithmetic_is_exact() {
    let env = Environment::new();
    let t = [num(1), op(Operator::Divide), num(3), op(Operator::Plus), num(1), op(Operator::Divide), num(6)];
    assert_eq!(value(eval(&t, &env)), (1, 2));
    let t = [num(2), op(Operator::Power), num(-2)];
    assert_eq!(value(eval(&t, &env)), (1, 4));
    let t = [num(-2), op(Operator::Power), num(3)];
    assert_eq!(value(eval(&t, &env)), (-8, 1));
}

#[test]
fn power_domain_and_overflow() {
    let env = Environment::new();
    let half = Number::new(1, 2).unwrap();
    assert_eq!(eval(&[num(4), op(Operator::Power), Token::Number(half)], &env).unwrap_err(), Error::ArithmeticDomain);
    assert_eq!(eval(&[num(0), op(Operator::Power), num(-1)], &env).unwrap_err(), Error::ArithmeticDomain);
    assert_eq!(eval(&[num(2), op(Operator::Power), num(64)], &env).unwrap_err(), Error::ArithmeticDomain);
    assert_eq!(value(eval(&[num(-1), op(Operator::Power), num(1_000_000_001)], &env)), (-1, 1));
    assert_eq!(value(eval(&[num(2), op(Operator::Power), num(62)], &env)), (1 << 62, 1));
}

#[test]
fn numbers_are_kept_in_lowest_terms() {
    let n = Number::new(6, -4).unwrap();
    assert_eq!((n.numerator(), n.denominator()), (-3, 2));
    assert!(!n.is_integer());
    assert_eq!(Number::new(1, 0).unwrap_err(), Error::ArithmeticDomain);
    let m = Number::new(8, 4).unwrap();
    assert!(m.is_integer());
    assert!(n.is_less_than(&m));
}

#[test]
fn execute_evaluates_valid_input() {
    let env = env_with_max();
    let mut engine = ShuntingYardEngine::new();
    let t = [id("max"), open(), num(3), Token::Comma, num(7), close(), op(Operator::Multiply), num(2)];
    assert_eq!(engine.validate_tokens(&t, &env), Ok(()));
    assert_eq!(value(engine.execute(&t, &env)), (14, 1));
    let t = [num(5), op(Operator::Divide), num(0)];
    assert_eq!(engine.execute(&t, &env).unwrap_err(), Error::ArithmeticDomain);
}

#[test]
fn validation_checks_structure() {
    let env = env_with_max();
    assert_eq!(validate(&[], &env), Ok(()));
    assert_eq!(validate(&[open(), num(1), close()], &env), Ok(()));
    assert_eq!(validate(&[open(), num(1)], &env), Err(Error::MalformedExpression));
    assert_eq!(validate(&[num(1), close()], &env), Err(Error::MalformedExpression));
    assert_eq!(validate(&[id("nope"), open(), close()], &env), Err(Error::UndefinedVariable));
    assert_eq!(validate(&[id("max"), num(1)], &env), Err(Error::MalformedExpression));
    assert_eq!(validate(&[id("max")], &env), Err(Error::MalformedExpression));
    assert_eq!(
        validate(&[id("max"), open(), num(1), Token::Comma, num(2), Token::Comma, num(3), close()], &env),
        Err(Error::ArityMismatch)
    );
    assert_eq!(validate(&[id("max"), open(), close()], &env), Err(Error::ArityMismatch));
    assert_eq!(validate(&[num(1), Token::Comma, num(2)], &env), Err(Error::MalformedExpression));
    assert_eq!(
        validate(&[Token::Bracket(Bracket::VerticalLine), num(1)], &env),
        Err(Error::UnsupportedFeature)
    );
    let nested = [
        id("max"), open(), open(), num(1), close(), Token::Comma,
        id("max"), open(), num(2), Token::Comma, num(3), close(), close(),
    ];
    assert_eq!(validate(&nested, &env), Ok(()));
    assert_eq!(value(eval(&nested, &env)), (3, 1));
}
