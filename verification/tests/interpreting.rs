use lox::parser::interpreter::Interpreter;
use lox::parser::parser::Parser;
use lox::parser::statements::Stmt;
use lox::scanner::token::LiteralType;

fn run(source: &str) -> lox::RunResult {
    lox::run(String::from(source))
}

fn output_of(source: &str) -> Vec<String> {
    let result = run(source);
    assert!(result.errors.is_empty(), "unexpected errors: {:?}", result.errors.len());
    result.output
}

/// Evaluates a single expression statement and returns its value.
fn eval(expression: &str) -> LiteralType {
    let mut source = String::from(expression);
    source.push(';');
    let mut scanner = lox::scanner::scanner::new(source);
    let tokens = scanner.scan_tokens();
    assert!(!scanner.error);
    let mut parser = Parser::new(tokens);
    let statements = parser.parse().expect("expression should parse");
    assert_eq!(statements.len(), 1);
    match &statements[0] {
        Stmt::Expression(es) => {
            let mut interpreter = Interpreter::new();
            interpreter.evaluate(&es.expression).expect("expression should evaluate")
        }
        _ => panic!("not an expression statement"),
    }
}

fn eval_bits(expression: &str) -> u64 {
    match eval(expression) {
        LiteralType::Float(bits) => bits,
        _ => panic!("expected a number from {}", expression),
    }
}

fn eval_bool(expression: &str) -> bool {
    match eval(expression) {
        LiteralType::Bool(b) => b,
        _ => panic!("expected a boolean from {}", expression),
    }
}

#[test]
fn arithmetic_round_trips_to_ieee_754() {
    assert_eq!(eval_bits("1 + 2 * 3"), (1f64 + 2f64 * 3f64).to_bits());
    assert_eq!(eval_bits("(1 + 2) * 3"), ((1f64 + 2f64) * 3f64).to_bits());
    assert_eq!(eval_bits("10 - 2 - 3"), (10f64 - 2f64 - 3f64).to_bits());
    assert_eq!(eval_bits("20 / 2 / 5"), (20f64 / 2f64 / 5f64).to_bits());
    assert_eq!(eval_bits("1 + 2 * 3 - 4 / 5"), (1f64 + 2f64 * 3f64 - 4f64 / 5f64).to_bits());
    assert_eq!(eval_bits("0.1 + 0.2"), (0.1f64 + 0.2f64).to_bits());
    assert_eq!(eval_bits("3.5 * 1.25"), (3.5f64 * 1.25f64).to_bits());
}

#[test]
fn string_concatenation_and_mixed_plus() {
    match eval("\"a\" + \"b\"") {
        LiteralType::String(s) => assert_eq!(s, "ab"),
        _ => panic!("expected a string"),
    }
    let result = run("print \"a\" + 1;");
    assert!(result.output.is_empty());
    assert_eq!(result.errors.len(), 1);
    assert_eq!(result.errors[0].message, "Operands must be two numbers or two strings");
    assert_eq!(result.errors[0].line, 1);
}

#[test]
fn inner_declaration_shadows_and_outer_is_restored() {
    assert_eq!(output_of("var x = 1; { var x = 2; print x; } print x;"), vec!["2", "1"]);
}

#[test]
fn assignment_in_a_block_writes_through_to_the_outer_scope() {
    assert_eq!(output_of("var x = 1; { x = 2; } print x;"), vec!["2"]);
}

#[test]
fn assigning_an_undeclared_name_is_a_runtime_error() {
    let result = run("x = 5;");
    assert_eq!(result.errors.len(), 1);
    assert!(result.errors[0].message.contains("Undefined variable 'x'."));
    assert_eq!(result.errors[0].line, 1);
}

#[test]
fn reading_an_undeclared_name_is_a_runtime_error() {
    let result = run("print 1;\nprint y;");
    assert_eq!(result.output, vec!["1"]);
    assert_eq!(result.errors.len(), 1);
    assert!(result.errors[0].message.contains("Undefined variable 'y'."));
    assert_eq!(result.errors[0].line, 2);
}

#[test]
fn if_takes_the_else_branch_on_false() {
    assert_eq!(output_of("if (false) print \"a\"; else print \"b\";"), vec!["b"]);
}

#[test]
fn zero_is_truthy() {
    assert_eq!(output_of("if (0) print \"yes\";"), vec!["yes"]);
}

#[test]
fn empty_string_is_truthy_and_nil_is_falsey() {
    assert_eq!(output_of("if (\"\") print \"s\"; else print \"n\";"), vec!["s"]);
    assert_eq!(output_of("if (nil) print \"t\"; else print \"f\";"), vec!["f"]);
}

#[test]
fn no_cross_variant_equality() {
    assert!(!eval_bool("1 == \"1\""));
    assert!(eval_bool("1 == 1.0"));
    assert!(eval_bool("\"a\" == \"a\""));
    assert!(!eval_bool("\"a\" == \"b\""));
    assert!(eval_bool("nil == nil"));
    assert!(!eval_bool("true == 1"));
    assert!(eval_bool("1 != \"1\""));
}

#[test]
fn comparisons_demand_numbers() {
    assert!(eval_bool("1 < 2"));
    assert!(eval_bool("2 <= 2"));
    assert!(!eval_bool("3 > 4"));
    assert!(eval_bool("4 >= 4"));
    let result = run("print \"a\" < 1;");
    assert_eq!(result.errors.len(), 1);
    assert_eq!(result.errors[0].message, "Operand must be a number");
}

#[test]
fn unary_operators() {
    assert_eq!(eval_bits("-3 + 5"), (-3f64 + 5f64).to_bits());
    assert_eq!(eval_bits("--3"), 3f64.to_bits());
    assert!(!eval_bool("!true"));
    assert!(eval_bool("!nil"));
    assert!(!eval_bool("!0"));
    let result = run("print -\"a\";");
    assert_eq!(result.errors.len(), 1);
    assert_eq!(result.errors[0].message, "Operand must be a number");
}

#[test]
fn subtraction_of_strings_is_a_typed_error() {
    let result = run("print \"a\" - \"b\";");
    assert_eq!(result.errors.len(), 1);
    assert_eq!(result.errors[0].message, "Operand must be a number");
    assert_eq!(result.errors[0].line, 1);
}

#[test]
fn print_stringifies_each_variant() {
    assert_eq!(output_of("print nil;"), vec!["nil"]);
    assert_eq!(output_of("print true;"), vec!["true"]);
    assert_eq!(output_of("print false;"), vec!["false"]);
    assert_eq!(output_of("print \"hi\";"), vec!["hi"]);
    assert_eq!(output_of("print 2;"), vec!["2"]);
    assert_eq!(output_of("print 0.5;"), vec!["0.5"]);
}

#[test]
fn assignment_is_an_expression_yielding_the_value() {
    assert_eq!(output_of("var x = 1; print x = 5; print x;"), vec!["5", "5"]);
}

#[test]
fn var_without_initializer_is_nil() {
    assert_eq!(output_of("var x; print x;"), vec!["nil"]);
}

#[test]
fn redeclaration_in_the_same_scope_overwrites() {
    assert_eq!(output_of("var x = 1; var x = 2; print x;"), vec!["2"]);
}

#[test]
fn else_binds_through_chains() {
    assert_eq!(
        output_of("if (1 > 2) print \"a\"; else if (2 > 1) print \"b\"; else print \"c\";"),
        vec!["b"]
    );
}

#[test]
fn environment_is_usable_after_a_block_fails() {
    let result = run("var x = 1; { var y = 2; print missing; }");
    assert_eq!(result.errors.len(), 1);
    assert!(result.errors[0].message.contains("Undefined variable 'missing'."));
}

#[test]
fn scan_errors_are_reported_and_the_rest_still_runs() {
    let result = run("@\nprint 1;");
    assert_eq!(result.errors.len(), 1);
    assert_eq!(result.errors[0].message, "Unexpected character. @");
    assert_eq!(result.output, vec!["1"]);
}

#[test]
fn division_by_zero_follows_ieee_754() {
    assert_eq!(eval_bits("1 / 0"), f64::INFINITY.to_bits());
    assert_eq!(eval_bits("-1 / 0"), f64::NEG_INFINITY.to_bits());
    assert!(f64::from_bits(eval_bits("0 / 0")).is_nan());
}

#[test]
fn deep_grouping_evaluates() {
    assert_eq!(eval_bits("((((1))))"), 1f64.to_bits());
    assert_eq!(eval_bits("((1 + (2)) * (((3))))"), 9f64.to_bits());
}

#[test]
fn comparison_binds_tighter_than_equality() {
    assert!(eval_bool("1 < 2 == true"));
    assert!(eval_bool("2 + 1 > 2"));
}

#[test]
fn inexact_decimal_literals_round_correctly() {
    assert_eq!(eval_bits("0.1"), 0.1f64.to_bits());
    assert_eq!(eval_bits("2.2250738585072014"), 2.2250738585072014f64.to_bits());
}

#[test]
fn a_longer_program_runs_in_order() {
    let source = "var a = 1;\nvar b = 2;\n{ var c = a + b; print c; a = c * 2; }\nprint a;\nif (a > 5) { print \"big\"; } else { print \"small\"; }";
    assert_eq!(output_of(source), vec!["3", "6", "big"]);
}

#[test]
fn concatenation_in_conditions() {
    assert_eq!(output_of("if (\"a\" + \"b\" == \"ab\") print \"yes\"; else print \"no\";"), vec!["yes"]);
}

#[test]
fn large_magnitudes_print_in_scientific_notation() {
    assert_eq!(output_of("print 100000;"), vec!["1.0E+5"]);
    assert_eq!(output_of("print 1000;"), vec!["1000"]);
}
