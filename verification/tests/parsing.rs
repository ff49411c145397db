use lox::parser::interpreter::{apply_binary, Interpreter, RuntimeError};
use lox::parser::statements::Environment;
use lox::scanner::token::{keyword_type, LiteralType, Token, TokenType};
use std::cmp::Ordering;

fn run(source: &str) -> lox::RunResult {
    lox::run(String::from(source))
}

fn sole_error(source: &str) -> RuntimeError {
    let result = run(source);
    assert!(result.output.is_empty(), "no output expected");
    assert_eq!(result.errors.len(), 1);
    let e = &result.errors[0];
    RuntimeError { message: e.message.clone(), line: e.line }
}

#[test]
fn missing_semicolon_is_a_parse_error() {
    let e = sole_error("print 1");
    assert_eq!(e.message, "Expect ';' after value. ");
    assert_eq!(e.line, 1);
}

#[test]
fn missing_right_paren_is_a_parse_error() {
    let e = sole_error("(1 + 2;");
    assert_eq!(e.message, "Expect ')' after expression");
}

#[test]
fn invalid_assignment_target_is_reported_at_the_equal_sign() {
    let e = sole_error("1 = 2;");
    assert_eq!(e.message, "Invalid assignment target. ");
    assert_eq!(e.line, 1);
}

#[test]
fn var_needs_a_name() {
    let e = sole_error("var 1 = 2;");
    assert_eq!(e.message, "Expect variable name.");
}

#[test]
fn var_needs_its_semicolon() {
    let e = sole_error("var x = 2");
    assert_eq!(e.message, "Expect ';' after variable declaration.");
}

#[test]
fn block_needs_its_closing_brace() {
    let e = sole_error("{ print 1;");
    assert_eq!(e.message, "Expect '} at the end of block'");
}

#[test]
fn if_needs_its_parentheses() {
    assert_eq!(sole_error("if true print 1;").message, "Expect '(' after if. ");
    assert_eq!(sole_error("if (true print 1;").message, "Expect ')' after if. ");
}

#[test]
fn an_operator_without_operand_expects_an_expression() {
    let e = sole_error("1 + ;");
    assert_eq!(e.message, "Expect expression ");
}

#[test]
fn a_parse_error_stops_everything() {
    let result = run("print 1; print 2");
    assert!(result.output.is_empty());
    assert_eq!(result.errors.len(), 1);
    assert_eq!(result.errors[0].message, "Expect ';' after value. ");
}

fn word(name: &str, line: i32) -> Token {
    Token {
        token_type: TokenType::IDENTIFIER,
        lexeme: String::from(name),
        literal: LiteralType::Null,
        line,
    }
}

#[test]
fn environment_defines_and_gets() {
    let mut env = Environment::new();
    env.define(&String::from("x"), LiteralType::Float(1f64.to_bits()));
    match env.get(word("x", 1)) {
        Ok(LiteralType::Float(bits)) => assert_eq!(bits, 1f64.to_bits()),
        _ => panic!("x should be bound to a number"),
    }
    match env.get(word("y", 7)) {
        Err(e) => {
            assert_eq!(e.message, "Undefined variable 'y'.");
            assert_eq!(e.line, 7);
        }
        _ => panic!("y is unbound"),
    }
}

#[test]
fn environment_assign_walks_outward_and_fails_when_unbound() {
    let mut env = Environment::new();
    env.define(&String::from("x"), LiteralType::Float(1f64.to_bits()));
    let mut env = Environment::new_with_enclosing(env);
    assert!(env.assign(word("x", 2), LiteralType::Float(9f64.to_bits())).is_ok());
    match env.get(word("x", 2)) {
        Ok(LiteralType::Float(bits)) => assert_eq!(bits, 9f64.to_bits()),
        _ => panic!("x should be rebound"),
    }
    match env.assign(word("z", 3), LiteralType::Null) {
        Err(e) => assert_eq!(e.message, "Undefined variable 'z'."),
        _ => panic!("z is unbound"),
    }
    env.pop_frame();
    match env.get(word("x", 4)) {
        Ok(LiteralType::Float(bits)) => assert_eq!(bits, 9f64.to_bits()),
        _ => panic!("the rebinding survives the inner scope"),
    }
}

#[test]
fn literal_getters() {
    let n = LiteralType::Float(2.5f64.to_bits());
    assert_eq!(n.get_number(), Ok(2.5f64.to_bits()));
    assert_eq!(LiteralType::Null.get_number(), Err(String::from("Operand must be a number")));
    let s = LiteralType::String(String::from("hi"));
    assert_eq!(s.get_string(), Ok(String::from("hi")));
    assert_eq!(n.get_string(), Err(String::from("Operand must be a number")));
}

#[test]
fn literal_addition() {
    let two = LiteralType::Float(2f64.to_bits());
    let three = LiteralType::Float(3f64.to_bits());
    match two.add(three) {
        Ok(LiteralType::Float(bits)) => assert_eq!(bits, 5f64.to_bits()),
        _ => panic!("2 + 3 is a number"),
    }
    let a = LiteralType::String(String::from("a"));
    let b = LiteralType::String(String::from("b"));
    match a.add(b) {
        Ok(LiteralType::String(s)) => assert_eq!(s, "ab"),
        _ => panic!("string concatenation"),
    }
    let a = LiteralType::String(String::from("a"));
    let one = LiteralType::Float(1f64.to_bits());
    match a.add(one) {
        Err(m) => assert_eq!(m, "Operands must be two numbers or two strings"),
        _ => panic!("mixed addition is an error"),
    }
}

#[test]
fn literal_equality_follows_ieee_754_for_numbers() {
    let zero = LiteralType::Float(0f64.to_bits());
    let negative_zero = LiteralType::Float((-0f64).to_bits());
    assert!(zero.equals(&negative_zero));
    let nan = LiteralType::Float(f64::NAN.to_bits());
    assert!(!nan.equals(&nan));
    assert!(LiteralType::Null.equals(&LiteralType::Null));
    assert!(!LiteralType::Bool(true).equals(&LiteralType::Bool(false)));
}

#[test]
fn truthiness_coercion() {
    assert!(Interpreter::is_truthful(LiteralType::Float(0f64.to_bits())));
    assert!(Interpreter::is_truthful(LiteralType::String(String::new())));
    assert!(Interpreter::is_truthful(LiteralType::Bool(true)));
    assert!(!Interpreter::is_truthful(LiteralType::Bool(false)));
    assert!(!Interpreter::is_truthful(LiteralType::Null));
}

#[test]
fn stringify_each_variant() {
    assert_eq!(Interpreter::stringify(LiteralType::Null), "nil");
    assert_eq!(Interpreter::stringify(LiteralType::Bool(true)), "true");
    assert_eq!(Interpreter::stringify(LiteralType::String(String::from("x"))), "x");
    assert_eq!(Interpreter::stringify(LiteralType::Float(7f64.to_bits())), "7");
}

fn operator(token_type: TokenType, lexeme: &str) -> Token {
    Token { token_type, lexeme: String::from(lexeme), literal: LiteralType::Null, line: 1 }
}

#[test]
fn apply_binary_divides() {
    let ten = LiteralType::Float(10f64.to_bits());
    let four = LiteralType::Float(4f64.to_bits());
    match apply_binary(&operator(TokenType::SLASH, "/"), ten, four) {
        Ok(LiteralType::Float(bits)) => assert_eq!(bits, (10f64 / 4f64).to_bits()),
        _ => panic!("10 / 4 is a number"),
    }
}

#[test]
fn runtime_error_packages_line_and_message() {
    let e = RuntimeError::error(3, String::from("m"));
    assert_eq!(e.line, 3);
    assert_eq!(e.message, "m");
}

#[test]
fn keyword_table_lookup() {
    assert_eq!(keyword_type(&String::from("while")), TokenType::WHILE);
    assert_eq!(keyword_type(&String::from("whileish")), TokenType::IDENTIFIER);
}

#[test]
fn ordering_within_variants_only() {
    let one = LiteralType::Float(1f64.to_bits());
    let two = LiteralType::Float(2f64.to_bits());
    assert_eq!(one.compare(&two), Some(Ordering::Less));
    assert_eq!(two.compare(&one), Some(Ordering::Greater));
    assert_eq!(one.compare(&LiteralType::Float(1f64.to_bits())), Some(Ordering::Equal));
    let nan = LiteralType::Float(f64::NAN.to_bits());
    assert_eq!(nan.compare(&one), None);
    let a = LiteralType::String(String::from("apple"));
    let b = LiteralType::String(String::from("apricot"));
    assert_eq!(a.compare(&b), Some(Ordering::Less));
    assert_eq!(a.compare(&LiteralType::String(String::from("app"))), Some(Ordering::Greater));
    assert_eq!(a.compare(&LiteralType::String(String::from("apple"))), Some(Ordering::Equal));
    assert_eq!(
        LiteralType::Bool(false).compare(&LiteralType::Bool(true)),
        Some(Ordering::Less)
    );
    assert_eq!(LiteralType::Null.compare(&LiteralType::Null), Some(Ordering::Equal));
    assert_eq!(LiteralType::Null.compare(&one), None);
    assert_eq!(one.compare(&a), None);
}
