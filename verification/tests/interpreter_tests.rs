use calculator::interpreter::builtins::{
    call_pure_builtin, handle_head, handle_index, handle_is_bool, handle_is_function,
    handle_is_list, handle_is_number, handle_is_string, handle_len, handle_tail, handle_type,
    literal, names_pure_builtin, print_value,
};
use calculator::interpreter::error::RuntimeError;
use calculator::interpreter::interpreter::{Interpreter, DEFAULT_CALL_LIMIT};
use calculator::interpreter::number::{number_string, parse_i32, push_number};
use calculator::interpreter::operators::{apply_operator, joined, names_operator};
use calculator::interpreter::scope::{Scope, ScopeManager};
use calculator::lexer::lexer::Lexer;
use calculator::node::node::{Node, NodeType};
use calculator::parser::parser::Parser;
use calculator::token::token::Value;

fn program(input: &str) -> Node {
    let tokens = Lexer::new(input.to_string()).lex().unwrap();
    Parser::new(tokens).parse().unwrap()
}

fn run(input: &str) -> Result<Value, RuntimeError> {
    Interpreter::new().evaluate(program(input))
}

fn value(input: &str) -> Value {
    run(input).unwrap()
}

fn text(s: &str) -> Value {
    Value::String(s.to_string())
}

fn numbers(items: &[i32]) -> Value {
    Value::List(items.iter().map(|n| Value::Number(*n)).collect())
}

fn leaf(kind: NodeType, value: &str) -> Node {
    Node {
        value: Some(value.to_string()),
        node_type: kind,
        children: vec![],
    }
}

fn branch(kind: NodeType, children: Vec<Node>) -> Node {
    Node {
        value: None,
        node_type: kind,
        children,
    }
}

fn named(kind: NodeType, value: &str, children: Vec<Node>) -> Node {
    Node {
        value: Some(value.to_string()),
        node_type: kind,
        children,
    }
}

fn evaluate_node(node: Node) -> Result<Value, RuntimeError> {
    Interpreter::new().evaluate(branch(NodeType::Program, vec![node]))
}

fn rendered(value: &Value) -> String {
    let mut out = String::new();
    print_value(value, &mut out);
    out
}

#[test]
fn an_empty_program_is_zero() {
    assert_eq!(value(""), Value::Number(0));
}

#[test]
fn the_value_of_a_program_is_that_of_its_last_statement() {
    assert_eq!(value("1; 2; 3"), Value::Number(3));
    assert_eq!(value("1; \"a\""), text("a"));
}

#[test]
fn literals() {
    assert_eq!(value("42"), Value::Number(42));
    assert_eq!(value("0"), Value::Number(0));
    assert_eq!(value("007"), Value::Number(7));
    assert_eq!(value("2147483647"), Value::Number(i32::MAX));
    assert_eq!(value("true"), Value::Boolean(true));
    assert_eq!(value("false"), Value::Boolean(false));
    assert_eq!(value("\"hello world\""), text("hello world"));
    assert_eq!(value("\"\""), text(""));
    assert_eq!(value("\"1.5\""), text("1.5"));
    assert_eq!(value("\"true\""), text("true"));
}

#[test]
fn literal_values_by_their_text() {
    assert_eq!(literal("12"), Ok(Value::Number(12)));
    assert_eq!(literal("-12"), Ok(Value::Number(-12)));
    assert_eq!(literal("+12"), Ok(Value::Number(12)));
    assert_eq!(literal("-2147483648"), Ok(Value::Number(i32::MIN)));
    assert_eq!(literal("2147483648"), Err(RuntimeError::InvalidLiteral));
    assert_eq!(literal("-2147483649"), Err(RuntimeError::InvalidLiteral));
    assert_eq!(literal(""), Err(RuntimeError::InvalidLiteral));
    assert_eq!(literal("-"), Err(RuntimeError::InvalidLiteral));
    assert_eq!(literal("+"), Err(RuntimeError::InvalidLiteral));
    assert_eq!(literal("--1"), Err(RuntimeError::InvalidLiteral));
    assert_eq!(literal("1a"), Err(RuntimeError::InvalidLiteral));
    assert_eq!(literal(" 1"), Err(RuntimeError::InvalidLiteral));
    assert_eq!(literal("abc"), Err(RuntimeError::InvalidLiteral));
    assert_eq!(literal("True"), Err(RuntimeError::InvalidLiteral));
    assert_eq!(literal("true"), Ok(Value::Boolean(true)));
    assert_eq!(literal("false"), Ok(Value::Boolean(false)));
    assert_eq!(literal("\"a\""), Ok(text("a")));
    assert_eq!(literal("a\"b\"c"), Ok(text("abc")));
    assert_eq!(literal("\""), Ok(text("")));
    assert_eq!(literal("\"1.5\""), Ok(text("1.5")));
    assert_eq!(literal("1.5"), Ok(Value::Float("1.5".to_string())));
    assert_eq!(literal("."), Ok(Value::Float(".".to_string())));
    assert_eq!(literal("true.false"), Ok(Value::Float("true.false".to_string())));
}

#[test]
fn numbers_from_text() {
    assert_eq!(parse_i32("0"), Some(0));
    assert_eq!(parse_i32("-0"), Some(0));
    assert_eq!(parse_i32("00000000000000000000012"), Some(12));
    assert_eq!(parse_i32("2147483647"), Some(2147483647));
    assert_eq!(parse_i32("2147483648"), None);
    assert_eq!(parse_i32("-2147483648"), Some(-2147483648));
    assert_eq!(parse_i32("-2147483649"), None);
    assert_eq!(parse_i32("99999999999999999999999999"), None);
    assert_eq!(parse_i32("12x"), None);
    assert_eq!(parse_i32("x12"), None);
    assert_eq!(parse_i32("1 2"), None);
    assert_eq!(parse_i32("١٢"), None);
    assert_eq!(parse_i32(""), None);
    assert_eq!(parse_i32("+"), None);
}

#[test]
fn numbers_as_text() {
    assert_eq!(number_string(0), "0");
    assert_eq!(number_string(7), "7");
    assert_eq!(number_string(10), "10");
    assert_eq!(number_string(-1), "-1");
    assert_eq!(number_string(120), "120");
    assert_eq!(number_string(i32::MAX), "2147483647");
    assert_eq!(number_string(i32::MIN), "-2147483648");
    let mut out = "n = ".to_string();
    push_number(-45, &mut out);
    assert_eq!(out, "n = -45");
}

#[test]
fn numbers_as_text_read_back() {
    for n in [0, 1, -1, 9, 10, 99, 100, -100, 12345, i32::MAX, i32::MIN] {
        assert_eq!(parse_i32(&number_string(n)), Some(n));
        assert_eq!(number_string(n), n.to_string());
    }
    for text in ["0", "5", "-5", "1000", "2147483647", "-2147483648"] {
        assert_eq!(text.parse::<i32>().ok(), parse_i32(text));
    }
}

#[test]
fn arithmetic_is_that_of_32_bits() {
    assert_eq!(value("6 + 7"), Value::Number(13));
    assert_eq!(value("6 - 7"), Value::Number(-1));
    assert_eq!(value("6 * 7"), Value::Number(42));
    assert_eq!(value("45 / 7"), Value::Number(6));
    assert_eq!(value("45 % 7"), Value::Number(3));
    for (a, b) in [(0, 0), (1, 2), (65536, 65536), (2147483647, 1), (2147483647, 2147483647)] {
        assert_eq!(
            value(&format!("{} + {}", a, b)),
            Value::Number(i32::wrapping_add(a, b))
        );
        assert_eq!(
            value(&format!("{} - {}", a, b)),
            Value::Number(i32::wrapping_sub(a, b))
        );
        assert_eq!(
            value(&format!("{} * {}", a, b)),
            Value::Number(i32::wrapping_mul(a, b))
        );
    }
    assert_eq!(value("2147483647 + 1"), Value::Number(i32::MIN));
    assert_eq!(value("0 - 2147483647 - 2"), Value::Number(i32::MAX));
    assert_eq!(value("65536 * 65536"), Value::Number(0));
    assert_eq!(value("2147483647 * 2147483647"), Value::Number(1));
}

#[test]
fn division_rounds_towards_zero() {
    assert_eq!(value("7 / 2"), Value::Number(3));
    assert_eq!(value("(0 - 7) / 2"), Value::Number(-3));
    assert_eq!(value("7 / (0 - 2)"), Value::Number(-3));
    assert_eq!(value("(0 - 7) / (0 - 2)"), Value::Number(3));
    assert_eq!(value("0 / 5"), Value::Number(0));
    assert_eq!(value("7 % 2"), Value::Number(1));
    assert_eq!(value("(0 - 7) % 2"), Value::Number(-1));
    assert_eq!(value("7 % (0 - 2)"), Value::Number(1));
    assert_eq!(value("(0 - 7) % (0 - 2)"), Value::Number(-1));
    assert_eq!(value("0 % 5"), Value::Number(0));
}

#[test]
fn the_smallest_number_divided_by_minus_one_wraps() {
    let operands = vec![Value::Number(i32::MIN), Value::Number(-1)];
    assert_eq!(apply_operator("/", &operands), Ok(Value::Number(i32::MIN)));
    assert_eq!(apply_operator("%", &operands), Ok(Value::Number(0)));
    assert_eq!(
        value("(0 - 2147483647 - 1) / (0 - 1)"),
        Value::Number(i32::MIN)
    );
}

#[test]
fn division_by_zero_fails() {
    assert_eq!(run("1 / 0"), Err(RuntimeError::DivisionByZero));
    assert_eq!(run("1 % 0"), Err(RuntimeError::DivisionByZero));
    assert_eq!(run("0 / 0"), Err(RuntimeError::DivisionByZero));
}

#[test]
fn precedence_and_association() {
    assert_eq!(value("2 + 3 * 4"), Value::Number(14));
    assert_eq!(value("2 * 3 + 4"), Value::Number(10));
    assert_eq!(value("10 - 4 - 3"), Value::Number(3));
    assert_eq!(value("10 - (4 - 3)"), Value::Number(9));
    assert_eq!(value("100 / 10 / 5"), Value::Number(2));
    assert_eq!(value("100 / (10 / 5)"), Value::Number(50));
    assert_eq!(value("2 + 3 * 4 - 5"), Value::Number(9));
    assert_eq!(value("(2 + 3) * (4 - 5)"), Value::Number(-5));
    assert_eq!(value("7 - 2 * 3 % 4"), Value::Number(5));
}

#[test]
fn comparisons_chain_from_the_left_at_the_level_of_sums() {
    assert_eq!(value("1 + 2 == 3"), Value::Boolean(true));
    assert_eq!(run("3 == 1 + 2"), Err(RuntimeError::ExpectedNumber));
    assert_eq!(run("1 < 2 < 3"), Err(RuntimeError::ExpectedNumber));
    assert_eq!(value("1 < 2 == true"), Value::Boolean(true));
}

#[test]
fn comparisons_of_numbers() {
    assert_eq!(value("1 == 1"), Value::Boolean(true));
    assert_eq!(value("1 == 2"), Value::Boolean(false));
    assert_eq!(value("1 != 1"), Value::Boolean(false));
    assert_eq!(value("1 != 2"), Value::Boolean(true));
    assert_eq!(value("1 > 1"), Value::Boolean(false));
    assert_eq!(value("2 > 1"), Value::Boolean(true));
    assert_eq!(value("1 >= 1"), Value::Boolean(true));
    assert_eq!(value("0 >= 1"), Value::Boolean(false));
    assert_eq!(value("1 < 1"), Value::Boolean(false));
    assert_eq!(value("0 < 1"), Value::Boolean(true));
    assert_eq!(value("1 <= 1"), Value::Boolean(true));
    assert_eq!(value("2 <= 1"), Value::Boolean(false));
}

#[test]
fn equality_of_strings_and_booleans() {
    assert_eq!(value("\"a\" == \"a\""), Value::Boolean(true));
    assert_eq!(value("\"a\" == \"b\""), Value::Boolean(false));
    assert_eq!(value("\"a\" != \"b\""), Value::Boolean(true));
    assert_eq!(value("\"a\" != \"a\""), Value::Boolean(false));
    assert_eq!(value("true == true"), Value::Boolean(true));
    assert_eq!(value("true == false"), Value::Boolean(false));
    assert_eq!(value("true != false"), Value::Boolean(true));
    assert_eq!(value("false != false"), Value::Boolean(false));
}

#[test]
fn operands_of_the_wrong_type_fail() {
    assert_eq!(run("1 + true"), Err(RuntimeError::ExpectedNumber));
    assert_eq!(run("1 + \"a\""), Err(RuntimeError::ExpectedNumber));
    assert_eq!(run("true + 1"), Err(RuntimeError::ExpectedNumber));
    assert_eq!(run("\"a\" + 1"), Err(RuntimeError::ExpectedString));
    assert_eq!(run("[1] + 1"), Err(RuntimeError::ExpectedList));
    assert_eq!(run("1 - \"a\""), Err(RuntimeError::ExpectedNumber));
    assert_eq!(run("\"a\" - 1"), Err(RuntimeError::ExpectedNumber));
    assert_eq!(run("\"a\" * 2"), Err(RuntimeError::ExpectedNumber));
    assert_eq!(run("[1] / 2"), Err(RuntimeError::ExpectedNumber));
    assert_eq!(run("true % 2"), Err(RuntimeError::ExpectedNumber));
    assert_eq!(run("1 == true"), Err(RuntimeError::ExpectedNumber));
    assert_eq!(run("\"a\" == 1"), Err(RuntimeError::ExpectedString));
    assert_eq!(run("true == 1"), Err(RuntimeError::ExpectedBoolean));
    assert_eq!(run("[1] == [1]"), Err(RuntimeError::ExpectedNumber));
    assert_eq!(run("1 != \"a\""), Err(RuntimeError::ExpectedNumber));
    assert_eq!(run("\"a\" < \"b\""), Err(RuntimeError::ExpectedNumber));
    assert_eq!(run("true >= false"), Err(RuntimeError::ExpectedNumber));
    assert_eq!(run("1 > true"), Err(RuntimeError::ExpectedNumber));
}

#[test]
fn operators_by_name() {
    let pair = vec![Value::Number(7), Value::Number(2)];
    assert_eq!(apply_operator("+", &pair), Ok(Value::Number(9)));
    assert_eq!(apply_operator("-", &pair), Ok(Value::Number(5)));
    assert_eq!(apply_operator("*", &pair), Ok(Value::Number(14)));
    assert_eq!(apply_operator("/", &pair), Ok(Value::Number(3)));
    assert_eq!(apply_operator("%", &pair), Ok(Value::Number(1)));
    assert_eq!(apply_operator("==", &pair), Ok(Value::Boolean(false)));
    assert_eq!(apply_operator("!=", &pair), Ok(Value::Boolean(true)));
    assert_eq!(apply_operator(">", &pair), Ok(Value::Boolean(true)));
    assert_eq!(apply_operator(">=", &pair), Ok(Value::Boolean(true)));
    assert_eq!(apply_operator("<", &pair), Ok(Value::Boolean(false)));
    assert_eq!(apply_operator("<=", &pair), Ok(Value::Boolean(false)));
    assert_eq!(apply_operator("=", &pair), Err(RuntimeError::InvalidOperator));
    assert_eq!(apply_operator("&&", &pair), Err(RuntimeError::InvalidOperator));
    assert_eq!(apply_operator("", &pair), Err(RuntimeError::InvalidOperator));
    for op in ["+", "-", "*", "/", "%", "==", "!=", ">", ">=", "<", "<="] {
        assert!(names_operator(op));
    }
    for op in ["=", "!", "&&", "++", "", "declaration"] {
        assert!(!names_operator(op));
    }
}

#[test]
fn minus_with_one_operand_negates() {
    assert_eq!(
        apply_operator("-", &vec![Value::Number(5)]),
        Ok(Value::Number(-5))
    );
    assert_eq!(
        apply_operator("-", &vec![Value::Number(i32::MIN)]),
        Ok(Value::Number(i32::MIN))
    );
    assert_eq!(
        apply_operator("-", &vec![Value::Boolean(true)]),
        Err(RuntimeError::ExpectedNumber)
    );
    assert_eq!(
        evaluate_node(named(
            NodeType::Operation,
            "-",
            vec![leaf(NodeType::Literal, "5")]
        )),
        Ok(Value::Number(-5))
    );
}

#[test]
fn an_operator_with_the_wrong_number_of_operands_fails() {
    let one = vec![Value::Number(5)];
    let three = vec![Value::Number(5), Value::Number(6), Value::Number(7)];
    assert_eq!(apply_operator("+", &one), Err(RuntimeError::InvalidNode));
    assert_eq!(apply_operator("+", &vec![]), Err(RuntimeError::InvalidNode));
    assert_eq!(apply_operator("-", &vec![]), Err(RuntimeError::InvalidNode));
    assert_eq!(apply_operator("+", &three), Err(RuntimeError::InvalidNode));
    assert_eq!(apply_operator("-", &three), Err(RuntimeError::InvalidNode));
    assert_eq!(apply_operator("?", &one), Err(RuntimeError::InvalidOperator));
}

#[test]
fn strings_and_lists_are_joined_by_plus() {
    assert_eq!(value("\"ab\" + \"cd\""), text("abcd"));
    assert_eq!(value("\"\" + \"\""), text(""));
    assert_eq!(value("[1, 2] + [3]"), numbers(&[1, 2, 3]));
    assert_eq!(value("[] + []"), numbers(&[]));
    assert_eq!(value("[] + [1]"), numbers(&[1]));
    assert_eq!(
        joined(
            &vec![Value::Number(1), text("a")],
            &vec![Value::Boolean(true)]
        ),
        vec![Value::Number(1), text("a"), Value::Boolean(true)]
    );
}

#[test]
fn lists_hold_values_of_any_type() {
    assert_eq!(
        value("[1, \"a\", true, [2, 3], 1 + 1]"),
        Value::List(vec![
            Value::Number(1),
            text("a"),
            Value::Boolean(true),
            numbers(&[2, 3]),
            Value::Number(2),
        ])
    );
}

#[test]
fn names_are_found_in_the_scope() {
    assert_eq!(value("let x = 5; x"), Value::Number(5));
    assert_eq!(value("let x = 5; let y = x + 1; y * x"), Value::Number(30));
    assert_eq!(value("let x = 5; let x = 6; x"), Value::Number(6));
    assert_eq!(run("x"), Err(RuntimeError::IdentifierNotFound));
    assert_eq!(run("let x = y"), Err(RuntimeError::IdentifierNotFound));
}

#[test]
fn let_is_not_hoisted() {
    assert_eq!(run("x; let x = 5"), Err(RuntimeError::IdentifierNotFound));
}

#[test]
fn an_assignment_has_the_value_it_binds() {
    assert_eq!(value("let x = 5"), Value::Number(5));
    assert_eq!(value("let x = 5; x = 7"), Value::Number(7));
}

#[test]
fn reassignment_needs_a_binding() {
    assert_eq!(run("x = 5"), Err(RuntimeError::IdentifierNotFound));
    assert_eq!(value("let x = 1; x = x + 1; x = x * 10; x"), Value::Number(20));
}

#[test]
fn if_takes_the_branch_of_its_condition() {
    assert_eq!(value("if true { 1 } else { 2 }"), Value::Number(1));
    assert_eq!(value("if false { 1 } else { 2 }"), Value::Number(2));
    assert_eq!(value("if 1 == 1 { 1 }"), Value::Number(1));
    assert_eq!(value("if 1 == 2 { 1 }"), Value::Null);
    assert_eq!(value("if true { }"), Value::Null);
    assert_eq!(
        value("let x = 3; if x == 1 { \"one\" } else if x == 2 { \"two\" } else { \"many\" }"),
        text("many")
    );
    assert_eq!(
        value("let x = 2; if x == 1 { \"one\" } else if x == 2 { \"two\" } else { \"many\" }"),
        text("two")
    );
}

#[test]
fn a_condition_must_be_a_boolean() {
    assert_eq!(run("if 1 { 2 }"), Err(RuntimeError::ExpectedBoolean));
    assert_eq!(run("if \"true\" { 2 }"), Err(RuntimeError::ExpectedBoolean));
    assert_eq!(run("if [] { 2 }"), Err(RuntimeError::ExpectedBoolean));
}

#[test]
fn if_and_block_open_no_scope() {
    assert_eq!(value("if true { let x = 5 } x"), Value::Number(5));
    assert_eq!(
        value("let x = 1; if true { x = 2; let y = 3 } x + y"),
        Value::Number(5)
    );
}

#[test]
fn a_block_has_the_value_of_its_last_statement() {
    assert_eq!(value("if true { 1; 2; 3 }"), Value::Number(3));
    assert_eq!(
        evaluate_node(branch(NodeType::Block, vec![])),
        Ok(Value::Null)
    );
    assert_eq!(
        evaluate_node(branch(
            NodeType::Block,
            vec![leaf(NodeType::Literal, "1"), leaf(NodeType::Literal, "2")]
        )),
        Ok(Value::Number(2))
    );
}

#[test]
fn functions_are_called_with_their_arguments() {
    assert_eq!(
        value("funk add(int x, int y) { x + y } add(2, 3)"),
        Value::Number(5)
    );
    assert_eq!(value("funk one() { 1 } one()"), Value::Number(1));
    assert_eq!(value("funk nothing() { } nothing()"), Value::Null);
    assert_eq!(
        value("funk first(a, b) { a } first(1 + 1, 2)"),
        Value::Number(2)
    );
    assert_eq!(
        value("funk second(a, b) { b } second(1, [2])"),
        numbers(&[2])
    );
}

#[test]
fn arguments_are_evaluated_from_left_to_right() {
    let mut interpreter = Interpreter::new();
    let result = interpreter
        .evaluate(program(
            "funk pair(a, b) { [a, b] } funk show(x) { print(x) x } pair(show(1), show(2))",
        ))
        .unwrap();
    assert_eq!(result, numbers(&[1, 2]));
    assert_eq!(interpreter.take_output(), "12");
}

#[test]
fn list_elements_and_operands_are_evaluated_from_left_to_right() {
    let mut interpreter = Interpreter::new();
    let result = interpreter
        .evaluate(program(
            "funk show(x) { print(x) x } let l = [show(1), show(2), show(3)]; show(4) - show(5)",
        ))
        .unwrap();
    assert_eq!(result, Value::Number(-1));
    assert_eq!(interpreter.take_output(), "12345");
}

#[test]
fn a_declaration_has_the_function_as_its_value() {
    let result = value("funk f(x) { x }");
    match result {
        Value::Function(node) => {
            assert_eq!(node.node_type, NodeType::Function);
            assert_eq!(node.children.len(), 2);
            assert_eq!(node.children[0].node_type, NodeType::Args);
            assert_eq!(node.children[1].node_type, NodeType::Block);
        }
        other => panic!("not a function: {:?}", other),
    }
}

#[test]
fn functions_are_values() {
    assert_eq!(
        value("funk inc(x) { x + 1 } funk twice(f, x) { f(f(x)) } twice(inc, 5)"),
        Value::Number(7)
    );
    assert_eq!(
        value("funk inc(x) { x + 1 } let g = inc; g(1)"),
        Value::Number(2)
    );
    assert_eq!(
        value("funk inc(x) { x + 1 } let fs = [inc]; let f = fs[0]; f(2)"),
        Value::Number(3)
    );
}

#[test]
fn calling_what_is_no_function_fails() {
    assert_eq!(run("let x = 1; x(2)"), Err(RuntimeError::ExpectedFunction));
    assert_eq!(run("f(1)"), Err(RuntimeError::FunctionNotFound));
    assert_eq!(run("f(y)"), Err(RuntimeError::FunctionNotFound));
}

#[test]
fn the_number_of_arguments_must_be_that_of_the_parameters() {
    assert_eq!(
        run("funk f(a) { a } f()"),
        Err(RuntimeError::ArityMismatch)
    );
    assert_eq!(
        run("funk f(a) { a } f(1, 2)"),
        Err(RuntimeError::ArityMismatch)
    );
    assert_eq!(
        run("funk f() { 1 } f(1)"),
        Err(RuntimeError::ArityMismatch)
    );
    assert_eq!(run("len()"), Err(RuntimeError::ArityMismatch));
    assert_eq!(run("len([1], [2])"), Err(RuntimeError::ArityMismatch));
    assert_eq!(run("input(1)"), Err(RuntimeError::ArityMismatch));
    assert_eq!(run("print()"), Err(RuntimeError::ArityMismatch));
    assert_eq!(run("println(1, 2)"), Err(RuntimeError::ArityMismatch));
}

#[test]
fn return_ends_the_function() {
    assert_eq!(
        value("funk f(x) { return x + 1; x + 2 } f(1)"),
        Value::Number(2)
    );
    assert_eq!(
        value("funk f(x) { if x > 0 { return 1 } else { return 2 } 3 } f(5) * 10 + f(0 - 5)"),
        Value::Number(12)
    );
    assert_eq!(
        value("funk f(x) { if x > 0 { if x > 1 { return 9 } 5 } 3 } f(2)"),
        Value::Number(9)
    );
    assert_eq!(
        value("funk f(x) { if x > 0 { if x > 1 { return 9 } 5 } 3 } f(1)"),
        Value::Number(3)
    );
}

#[test]
fn return_in_the_else_branch_ends_the_function() {
    assert_eq!(
        value("funk f(x) { if x > 0 { 1 } else { return 2 } 3 } f(0)"),
        Value::Number(2)
    );
}

#[test]
fn return_does_not_go_beyond_the_call() {
    assert_eq!(
        value("funk f() { return 1 } funk g() { f(); 2 } g()"),
        Value::Number(2)
    );
    assert_eq!(
        value("funk f() { return 1 } let x = f(); x + 1"),
        Value::Number(2)
    );
    assert_eq!(value("funk f() { return 1 } f() + 1; 5"), Value::Number(5));
}

#[test]
fn return_at_the_top_ends_the_program() {
    assert_eq!(value("return 1; 2"), Value::Number(1));
    assert_eq!(value("if true { return 1 } 2"), Value::Number(1));
}

#[test]
fn recursion() {
    assert_eq!(
        value("funk fact(n) { if n == 0 { 1 } else { n * fact(n - 1) } } fact(10)"),
        Value::Number(3628800)
    );
    assert_eq!(
        value("funk fact(n) { if n == 0 { 1 } else { n * fact(n - 1) } } fact(13)"),
        Value::Number(1932053504)
    );
    assert_eq!(
        value(
            "funk even(n) { if n == 0 { true } else { odd(n - 1) } } \
             funk odd(n) { if n == 0 { false } else { even(n - 1) } } even(10)"
        ),
        Value::Boolean(true)
    );
    assert_eq!(
        value("funk sum(l) { if len(l) == 0 { 0 } else { head(l) + sum(tail(l)) } } sum([1, 2, 3, 4])"),
        Value::Number(10)
    );
}

#[test]
fn calls_nest_up_to_the_call_limit() {
    let source = "funk down(n) { if n == 0 { 0 } else { down(n - 1) } } ";
    let mut interpreter = Interpreter::new();
    interpreter.set_call_limit(10);
    assert_eq!(
        interpreter.evaluate(program(&format!("{} down(9)", source))),
        Ok(Value::Number(0))
    );
    assert_eq!(
        interpreter.evaluate(program(&format!("{} down(10)", source))),
        Err(RuntimeError::CallDepthExceeded)
    );
    interpreter.set_call_limit(0);
    assert_eq!(
        interpreter.evaluate(program("1 + 2")),
        Ok(Value::Number(3))
    );
    assert_eq!(
        interpreter.evaluate(program("down(0)")),
        Err(RuntimeError::CallDepthExceeded)
    );
    assert_eq!(interpreter.evaluate(program("len([1])")), Ok(Value::Number(1)));
}

#[test]
fn endless_recursion_fails_at_the_default_limit() {
    assert_eq!(DEFAULT_CALL_LIMIT, 128);
    assert_eq!(
        run("funk f(x) { f(x + 1) } f(0)"),
        Err(RuntimeError::CallDepthExceeded)
    );
    assert_eq!(
        run("funk down(n) { if n == 0 { 0 } else { down(n - 1) } } down(127)"),
        Ok(Value::Number(0))
    );
    assert_eq!(
        run("funk down(n) { if n == 0 { 0 } else { down(n - 1) } } down(128)"),
        Err(RuntimeError::CallDepthExceeded)
    );
}

#[test]
fn a_failure_inside_a_call_leaves_the_scopes_as_they_were() {
    let mut interpreter = Interpreter::new();
    assert_eq!(
        interpreter.evaluate(program("funk f(inner) { 1 / 0 } f(5)")),
        Err(RuntimeError::DivisionByZero)
    );
    assert_eq!(
        interpreter.evaluate(program("inner")),
        Err(RuntimeError::IdentifierNotFound)
    );
    assert_eq!(
        interpreter.evaluate(program("let top = 1; top")),
        Ok(Value::Number(1))
    );
    assert_eq!(interpreter.evaluate(program("top")), Ok(Value::Number(1)));
}

#[test]
fn scope_isolation() {
    assert_eq!(
        run("funk f() { let inner = 5; inner } f(); inner"),
        Err(RuntimeError::IdentifierNotFound)
    );
    assert_eq!(
        run("funk f(p) { p } f(1); p"),
        Err(RuntimeError::IdentifierNotFound)
    );
    assert_eq!(
        run("funk f() { if true { let deep = 1 } deep } f(); deep"),
        Err(RuntimeError::IdentifierNotFound)
    );
    assert_eq!(
        value("let x = 1; funk f() { let x = 2; x } f() * 10 + x"),
        Value::Number(21)
    );
}

#[test]
fn value_copy() {
    assert_eq!(
        value("let x = [1, 2, 3]; funk f(l) { l = [9]; l } f(x); x"),
        numbers(&[1, 2, 3])
    );
    assert_eq!(
        value("let l = [1, 2, 3]; funk f(l) { l = l + [4]; l } f(l)"),
        numbers(&[1, 2, 3, 4])
    );
    assert_eq!(
        value("let l = [1, 2, 3]; funk f(l) { l = l + [4]; l } f(l); l"),
        numbers(&[1, 2, 3])
    );
    assert_eq!(
        value("let a = [1]; let b = a; b = b + [2]; a"),
        numbers(&[1])
    );
}

#[test]
fn a_function_sees_the_scopes_of_its_callers() {
    assert_eq!(
        value("let g = 1; funk f() { g = g + 1; g } f(); f(); g"),
        Value::Number(3)
    );
    assert_eq!(
        value("funk inner() { x + 1 } funk outer(x) { inner() } outer(5)"),
        Value::Number(6)
    );
}

#[test]
fn hoisting() {
    assert_eq!(value("let r = f(2); funk f(x) { x * 2 } r"), Value::Number(4));
    assert_eq!(
        value("let r = is_function(f); funk f() { 1 } r"),
        Value::Boolean(true)
    );
    assert_eq!(
        value("funk a() { b() } let r = a(); funk b() { 7 } r"),
        Value::Number(7)
    );
}

#[test]
fn declarations_at_any_depth_are_hoisted() {
    assert_eq!(
        value("let r = inner(); funk outer() { funk inner() { 3 } 1 } r"),
        Value::Number(3)
    );
    assert_eq!(
        value("let r = deep(); if false { funk deep() { 4 } } r"),
        Value::Number(4)
    );
}

#[test]
fn the_last_declaration_of_a_name_is_the_one_hoisted() {
    assert_eq!(
        value("let r = f(); funk f() { 1 } funk f() { 2 } r"),
        Value::Number(2)
    );
    assert_eq!(
        value("funk f() { 1 } let r = f(); funk f() { 2 } r"),
        Value::Number(1)
    );
}

#[test]
fn built_in_type_names() {
    assert_eq!(value("type(1)"), text("number"));
    assert_eq!(value("type(\"a\")"), text("string"));
    assert_eq!(value("type(true)"), text("bool"));
    assert_eq!(value("type([])"), text("list"));
    assert_eq!(value("funk f() { } type(f)"), text("function"));
    assert_eq!(value("funk f() { } type(f())"), text("null"));
    assert_eq!(handle_type(&Value::Null), text("null"));
    assert_eq!(handle_type(&Value::Float("1.5".to_string())), text("float"));
}

#[test]
fn built_in_type_checks() {
    assert_eq!(value("is_bool(true)"), Value::Boolean(true));
    assert_eq!(value("is_bool(1)"), Value::Boolean(false));
    assert_eq!(value("is_number(1)"), Value::Boolean(true));
    assert_eq!(value("is_number(\"1\")"), Value::Boolean(false));
    assert_eq!(value("is_string(\"1\")"), Value::Boolean(true));
    assert_eq!(value("is_string(1)"), Value::Boolean(false));
    assert_eq!(value("is_list([])"), Value::Boolean(true));
    assert_eq!(value("is_list(\"[]\")"), Value::Boolean(false));
    assert_eq!(value("funk f() { } is_function(f)"), Value::Boolean(true));
    assert_eq!(value("is_function(1)"), Value::Boolean(false));
    let values = [
        Value::Number(1),
        text("a"),
        Value::Boolean(false),
        Value::Float("1.5".to_string()),
        numbers(&[1]),
        Value::Function(branch(NodeType::Function, vec![])),
        Value::Null,
    ];
    for (i, v) in values.iter().enumerate() {
        assert_eq!(handle_is_number(v), Value::Boolean(i == 0));
        assert_eq!(handle_is_string(v), Value::Boolean(i == 1));
        assert_eq!(handle_is_bool(v), Value::Boolean(i == 2));
        assert_eq!(handle_is_list(v), Value::Boolean(i == 4));
        assert_eq!(handle_is_function(v), Value::Boolean(i == 5));
    }
}

#[test]
fn head_tail_and_len() {
    assert_eq!(value("head([1, 2, 3])"), Value::Number(1));
    assert_eq!(value("head([[1], 2])"), numbers(&[1]));
    assert_eq!(value("tail([1, 2, 3])"), numbers(&[2, 3]));
    assert_eq!(value("tail([1])"), numbers(&[]));
    assert_eq!(value("tail(\"abc\")"), text("bc"));
    assert_eq!(value("tail(\"a\")"), text(""));
    assert_eq!(value("len([])"), Value::Number(0));
    assert_eq!(value("len([1, [2, 3]])"), Value::Number(2));
    assert_eq!(value("len(\"\")"), Value::Number(0));
    assert_eq!(value("len(\"abc\")"), Value::Number(3));
    assert_eq!(value("len(tail(tail([1, 2, 3])))"), Value::Number(1));
}

#[test]
fn head_tail_and_len_of_the_wrong_thing_fail() {
    assert_eq!(run("head([])"), Err(RuntimeError::IndexOutOfRange));
    assert_eq!(run("tail([])"), Err(RuntimeError::IndexOutOfRange));
    assert_eq!(run("tail(\"\")"), Err(RuntimeError::IndexOutOfRange));
    assert_eq!(run("head(1)"), Err(RuntimeError::ExpectedList));
    assert_eq!(run("head(\"abc\")"), Err(RuntimeError::ExpectedList));
    assert_eq!(run("tail(1)"), Err(RuntimeError::ExpectedListOrString));
    assert_eq!(run("tail(true)"), Err(RuntimeError::ExpectedListOrString));
    assert_eq!(run("len(1)"), Err(RuntimeError::ExpectedListOrString));
    assert_eq!(handle_head(&Value::Null), Err(RuntimeError::ExpectedList));
    assert_eq!(
        handle_tail(&Value::Null),
        Err(RuntimeError::ExpectedListOrString)
    );
    assert_eq!(
        handle_len(&Value::Null),
        Err(RuntimeError::ExpectedListOrString)
    );
}

#[test]
fn the_length_of_a_string_is_in_bytes() {
    assert_eq!(handle_len(&text("é")), Ok(Value::Number(2)));
    assert_eq!(handle_len(&text("日本")), Ok(Value::Number(6)));
    assert_eq!(handle_tail(&text("éa")), Ok(text("a")));
}

#[test]
fn built_ins_without_effect_by_name() {
    let list = numbers(&[4, 5]);
    assert_eq!(call_pure_builtin("head", &list), Ok(Value::Number(4)));
    assert_eq!(call_pure_builtin("tail", &list), Ok(numbers(&[5])));
    assert_eq!(call_pure_builtin("len", &list), Ok(Value::Number(2)));
    assert_eq!(call_pure_builtin("type", &list), Ok(text("list")));
    assert_eq!(call_pure_builtin("is_bool", &list), Ok(Value::Boolean(false)));
    assert_eq!(
        call_pure_builtin("is_number", &list),
        Ok(Value::Boolean(false))
    );
    assert_eq!(
        call_pure_builtin("is_string", &list),
        Ok(Value::Boolean(false))
    );
    assert_eq!(call_pure_builtin("is_list", &list), Ok(Value::Boolean(true)));
    assert_eq!(
        call_pure_builtin("is_function", &list),
        Ok(Value::Boolean(false))
    );
    for name in [
        "head",
        "tail",
        "len",
        "type",
        "is_bool",
        "is_number",
        "is_string",
        "is_list",
        "is_function",
    ] {
        assert!(names_pure_builtin(name));
    }
    for name in ["print", "println", "input", "", "heads", "f"] {
        assert!(!names_pure_builtin(name));
    }
}

#[test]
fn a_name_in_scope_comes_before_a_built_in() {
    let mut interpreter = Interpreter::new();
    let declaration = branch(
        NodeType::Declaration,
        vec![
            leaf(NodeType::Identifier, "len"),
            branch(
                NodeType::Function,
                vec![
                    branch(NodeType::Args, vec![leaf(NodeType::Identifier, "x")]),
                    branch(NodeType::Block, vec![leaf(NodeType::Literal, "99")]),
                ],
            ),
        ],
    );
    let call = named(
        NodeType::FunctionCall,
        "len",
        vec![branch(
            NodeType::Parameters,
            vec![leaf(NodeType::Literal, "\"abc\"")],
        )],
    );
    assert_eq!(
        interpreter.evaluate(branch(NodeType::Program, vec![call.clone()])),
        Ok(Value::Number(3))
    );
    assert_eq!(
        interpreter.evaluate(branch(NodeType::Program, vec![declaration, call])),
        Ok(Value::Number(99))
    );
}

#[test]
fn indexing() {
    assert_eq!(value("let x = [10, 20, 30]; x[0]"), Value::Number(10));
    assert_eq!(value("let x = [10, 20, 30]; x[2]"), Value::Number(30));
    assert_eq!(value("let x = [10, 20, 30]; x[len(x) - 1]"), Value::Number(30));
    assert_eq!(value("let x = [[1, 2], [3]]; x[1]"), numbers(&[3]));
    assert_eq!(value("let s = \"abc\"; s[0]"), text("a"));
    assert_eq!(value("let s = \"abc\"; s[2]"), text("c"));
    assert_eq!(value("funk l() { [7, 8] } l()[1]"), Value::Number(8));
    assert_eq!(value("let s = \"abc\"; tail(s)[0]"), text("b"));
}

#[test]
fn indexing_out_of_range_fails() {
    assert_eq!(
        run("let x = [10, 20, 30]; x[3]"),
        Err(RuntimeError::IndexOutOfRange)
    );
    assert_eq!(
        run("let x = [10, 20, 30]; x[0 - 1]"),
        Err(RuntimeError::IndexOutOfRange)
    );
    assert_eq!(run("let x = []; x[0]"), Err(RuntimeError::IndexOutOfRange));
    assert_eq!(
        run("let s = \"abc\"; s[3]"),
        Err(RuntimeError::IndexOutOfRange)
    );
    assert_eq!(
        run("let s = \"\"; s[0]"),
        Err(RuntimeError::IndexOutOfRange)
    );
    assert_eq!(
        handle_index(&numbers(&[1]), &Value::Number(i32::MIN)),
        Err(RuntimeError::IndexOutOfRange)
    );
    assert_eq!(
        handle_index(&numbers(&[1]), &Value::Number(i32::MAX)),
        Err(RuntimeError::IndexOutOfRange)
    );
}

#[test]
fn indexing_needs_a_number_and_a_list_or_a_string() {
    assert_eq!(
        run("let x = [1]; x[true]"),
        Err(RuntimeError::ExpectedNumber)
    );
    assert_eq!(
        run("let x = [1]; x[\"0\"]"),
        Err(RuntimeError::ExpectedNumber)
    );
    assert_eq!(
        run("let x = 5; x[0]"),
        Err(RuntimeError::ExpectedListOrString)
    );
    assert_eq!(
        run("let x = true; x[0]"),
        Err(RuntimeError::ExpectedListOrString)
    );
    assert_eq!(
        run("let x = 5; x[true]"),
        Err(RuntimeError::ExpectedNumber)
    );
}

#[test]
fn a_string_is_indexed_by_bytes() {
    assert_eq!(
        handle_index(&text("aé"), &Value::Number(0)),
        Ok(text("a"))
    );
    assert_eq!(
        handle_index(&text("aé"), &Value::Number(1)),
        Ok(text("\u{c3}"))
    );
    assert_eq!(
        handle_index(&text("aé"), &Value::Number(2)),
        Ok(text("\u{a9}"))
    );
    assert_eq!(
        handle_index(&text("aé"), &Value::Number(3)),
        Err(RuntimeError::IndexOutOfRange)
    );
}

#[test]
fn values_as_they_are_printed() {
    assert_eq!(rendered(&Value::Number(12)), "12");
    assert_eq!(rendered(&Value::Number(-12)), "-12");
    assert_eq!(rendered(&Value::Number(0)), "0");
    assert_eq!(rendered(&Value::Float("1.50".to_string())), "1.50");
    assert_eq!(rendered(&text("a b")), "a b");
    assert_eq!(rendered(&text("")), "");
    assert_eq!(rendered(&Value::Boolean(true)), "true");
    assert_eq!(rendered(&Value::Boolean(false)), "false");
    assert_eq!(rendered(&Value::Null), "null");
    assert_eq!(
        rendered(&Value::Function(branch(NodeType::Function, vec![]))),
        "function"
    );
    assert_eq!(rendered(&numbers(&[])), "[]");
    assert_eq!(rendered(&numbers(&[1])), "[1]");
    assert_eq!(rendered(&numbers(&[1, 2, 3])), "[1, 2, 3]");
    assert_eq!(
        rendered(&Value::List(vec![
            numbers(&[1, 2]),
            numbers(&[]),
            text("a"),
            Value::Null,
            Value::Boolean(true),
            Value::List(vec![numbers(&[-3])]),
        ])),
        "[[1, 2], [], a, null, true, [[-3]]]"
    );
    let mut out = "> ".to_string();
    print_value(&numbers(&[1, 2]), &mut out);
    assert_eq!(out, "> [1, 2]");
}

#[test]
fn print_adds_to_the_output_and_returns_its_argument() {
    let mut interpreter = Interpreter::new();
    assert_eq!(
        interpreter.evaluate(program("print(1 + 2)")),
        Ok(Value::Number(3))
    );
    assert_eq!(
        interpreter.evaluate(program("println(\"a\") print([1, \"b\"]) println(true)")),
        Ok(Value::Boolean(true))
    );
    assert_eq!(interpreter.take_output(), "3a\n[1, b]true\n");
    assert_eq!(interpreter.take_output(), "");
    assert_eq!(
        interpreter.evaluate(program("funk f() { } println(f) print(f())")),
        Ok(Value::Null)
    );
    assert_eq!(interpreter.take_output(), "function\nnull");
}

#[test]
fn what_was_printed_before_a_failure_stays_printed() {
    let mut interpreter = Interpreter::new();
    assert_eq!(
        interpreter.evaluate(program("print(1) print(2 / 0) print(3)")),
        Err(RuntimeError::DivisionByZero)
    );
    assert_eq!(interpreter.take_output(), "1");
}

#[test]
fn input_reads_the_lines_in_order() {
    let mut interpreter = Interpreter::new();
    interpreter.push_input("first".to_string());
    interpreter.push_input("second\n".to_string());
    interpreter.push_input("third\r\n".to_string());
    interpreter.push_input("\n".to_string());
    interpreter.push_input("  spaced  ".to_string());
    assert_eq!(interpreter.evaluate(program("input()")), Ok(text("first")));
    assert_eq!(
        interpreter.evaluate(program("input() + input()")),
        Ok(text("secondthird"))
    );
    assert_eq!(interpreter.evaluate(program("input()")), Ok(text("")));
    assert_eq!(
        interpreter.evaluate(program("input()")),
        Ok(text("  spaced  "))
    );
    interpreter.push_input("again".to_string());
    assert_eq!(interpreter.evaluate(program("input()")), Ok(text("again")));
}

#[test]
fn input_fails_when_no_line_is_left() {
    let mut interpreter = Interpreter::new();
    assert_eq!(
        interpreter.evaluate(program("input()")),
        Err(RuntimeError::InputExhausted)
    );
    interpreter.push_input("only".to_string());
    assert_eq!(
        interpreter.evaluate(program("print(1) let a = input(); print(2) input()")),
        Err(RuntimeError::InputExhausted)
    );
    assert_eq!(interpreter.take_output(), "12");
    assert_eq!(interpreter.evaluate(program("a")), Ok(text("only")));
}

#[test]
fn a_copy_of_the_interpreter_is_in_the_same_state() {
    let mut interpreter = Interpreter::new();
    interpreter.set_call_limit(5);
    interpreter.push_input("line".to_string());
    interpreter
        .evaluate(program("let x = [1, 2]; funk f(a) { a + x } print(x)"))
        .unwrap();
    let mut copy = interpreter.clone();
    let source = "println(input()) let y = f([3]); x = 0; y";
    assert_eq!(
        interpreter.evaluate(program(source)),
        Ok(numbers(&[3, 1, 2]))
    );
    assert_eq!(copy.evaluate(program(source)), Ok(numbers(&[3, 1, 2])));
    assert_eq!(interpreter.take_output(), "[1, 2]line\n");
    assert_eq!(copy.take_output(), "[1, 2]line\n");
    assert_eq!(copy.evaluate(program("x")), Ok(Value::Number(0)));
    let down = "funk down(n) { if n == 0 { 0 } else { down(n - 1) } } down(5)";
    assert_eq!(
        copy.evaluate(program(down)),
        Err(RuntimeError::CallDepthExceeded)
    );
}

#[test]
fn the_interpreter_keeps_its_scope_between_programs() {
    let mut interpreter = Interpreter::new();
    assert_eq!(
        interpreter.evaluate(program("let x = 5; funk f(a) { a + x }")).is_ok(),
        true
    );
    assert_eq!(interpreter.evaluate(program("f(1)")), Ok(Value::Number(6)));
    assert_eq!(interpreter.evaluate(program("x = 10")), Ok(Value::Number(10)));
    assert_eq!(interpreter.evaluate(program("f(1)")), Ok(Value::Number(11)));
}

#[test]
fn numbers_too_large_are_no_literals() {
    assert_eq!(run("2147483648"), Err(RuntimeError::InvalidLiteral));
    assert_eq!(run("99999999999999999999"), Err(RuntimeError::InvalidLiteral));
    assert_eq!(
        evaluate_node(leaf(NodeType::Literal, "abc")),
        Err(RuntimeError::InvalidLiteral)
    );
}

#[test]
fn a_literal_with_a_point_is_a_float() {
    assert_eq!(
        evaluate_node(leaf(NodeType::Literal, "1.5")),
        Ok(Value::Float("1.5".to_string()))
    );
    let call = named(
        NodeType::FunctionCall,
        "type",
        vec![branch(
            NodeType::Parameters,
            vec![leaf(NodeType::Literal, "1.5")],
        )],
    );
    assert_eq!(evaluate_node(call), Ok(text("float")));
}

#[test]
fn an_operation_with_an_unknown_operator_fails() {
    let node = named(
        NodeType::Operation,
        "&&",
        vec![leaf(NodeType::Literal, "1"), leaf(NodeType::Literal, "2")],
    );
    assert_eq!(evaluate_node(node), Err(RuntimeError::InvalidOperator));
    let node = named(
        NodeType::Operation,
        "=",
        vec![leaf(NodeType::Literal, "1"), leaf(NodeType::Literal, "2")],
    );
    assert_eq!(evaluate_node(node), Err(RuntimeError::InvalidOperator));
}

#[test]
fn nodes_that_have_no_value_fail() {
    for kind in [
        NodeType::Program,
        NodeType::Parameters,
        NodeType::Function,
        NodeType::TypeAnnotation,
        NodeType::MapIndex,
        NodeType::Mapping,
    ] {
        assert_eq!(
            evaluate_node(branch(kind, vec![leaf(NodeType::Literal, "1")])),
            Err(RuntimeError::InvalidNode)
        );
    }
}

#[test]
fn nodes_without_what_their_kind_needs_fail() {
    let one = || leaf(NodeType::Literal, "1");
    let invalid = [
        branch(NodeType::Literal, vec![]),
        branch(NodeType::Identifier, vec![]),
        branch(NodeType::Expression, vec![]),
        branch(NodeType::Expression, vec![one(), one()]),
        branch(NodeType::Term, vec![]),
        branch(NodeType::Factor, vec![one(), one()]),
        branch(NodeType::Args, vec![]),
        branch(NodeType::Return, vec![]),
        branch(NodeType::If, vec![]),
        branch(NodeType::Assignment, vec![]),
        branch(NodeType::Assignment, vec![leaf(NodeType::Identifier, "x")]),
        branch(NodeType::Assignment, vec![branch(NodeType::Identifier, vec![]), one()]),
        branch(
            NodeType::Assignment,
            vec![leaf(NodeType::Identifier, "x"), one(), one()],
        ),
        branch(NodeType::Reassignment, vec![one()]),
        branch(NodeType::Declaration, vec![one()]),
        branch(NodeType::Operation, vec![one(), one()]),
        branch(NodeType::Index, vec![one()]),
        branch(NodeType::Index, vec![one(), one(), one()]),
        branch(NodeType::FunctionCall, vec![branch(NodeType::Parameters, vec![])]),
        named(NodeType::FunctionCall, "len", vec![]),
    ];
    for node in invalid {
        assert_eq!(evaluate_node(node), Err(RuntimeError::InvalidNode));
    }
}

#[test]
fn a_function_without_parameters_and_body_cannot_be_called() {
    let call = |name: &str| {
        named(
            NodeType::FunctionCall,
            name,
            vec![branch(NodeType::Parameters, vec![])],
        )
    };
    let declare = |function: Node| {
        branch(
            NodeType::Declaration,
            vec![leaf(NodeType::Identifier, "f"), function],
        )
    };
    let run_with = |function: Node| {
        Interpreter::new().evaluate(branch(
            NodeType::Program,
            vec![declare(function), call("f")],
        ))
    };
    assert_eq!(
        run_with(branch(NodeType::Function, vec![])),
        Err(RuntimeError::InvalidNode)
    );
    assert_eq!(
        run_with(leaf(NodeType::Literal, "1")),
        Err(RuntimeError::InvalidNode)
    );
    assert_eq!(
        run_with(branch(
            NodeType::Function,
            vec![
                branch(NodeType::Args, vec![branch(NodeType::Identifier, vec![])]),
                branch(NodeType::Block, vec![]),
            ]
        )),
        Err(RuntimeError::InvalidNode)
    );
    assert_eq!(
        run_with(branch(
            NodeType::Function,
            vec![
                branch(NodeType::Args, vec![]),
                branch(NodeType::Block, vec![leaf(NodeType::Literal, "7")]),
            ]
        )),
        Ok(Value::Number(7))
    );
}

#[test]
fn wrappers_have_the_value_of_their_child() {
    for kind in [
        NodeType::Expression,
        NodeType::Term,
        NodeType::Factor,
        NodeType::Args,
    ] {
        assert_eq!(
            evaluate_node(branch(kind, vec![leaf(NodeType::Literal, "5")])),
            Ok(Value::Number(5))
        );
    }
}

#[test]
fn if_without_branches_is_null() {
    assert_eq!(
        evaluate_node(branch(NodeType::If, vec![leaf(NodeType::Literal, "true")])),
        Ok(Value::Null)
    );
    assert_eq!(
        evaluate_node(branch(NodeType::If, vec![leaf(NodeType::Literal, "false")])),
        Ok(Value::Null)
    );
    assert_eq!(
        evaluate_node(branch(
            NodeType::If,
            vec![
                leaf(NodeType::Literal, "false"),
                leaf(NodeType::Literal, "1"),
                leaf(NodeType::Literal, "2"),
            ]
        )),
        Ok(Value::Number(2))
    );
}

#[test]
fn error_messages() {
    let messages = [
        (RuntimeError::IdentifierNotFound, "Identifier not found"),
        (RuntimeError::FunctionNotFound, "Function not found"),
        (RuntimeError::ExpectedNumber, "Expected a number"),
        (RuntimeError::ExpectedString, "Expected a string"),
        (RuntimeError::ExpectedList, "Expected a list"),
        (RuntimeError::ExpectedBoolean, "Expected a boolean"),
        (
            RuntimeError::ExpectedListOrString,
            "Expected a list or a string",
        ),
        (RuntimeError::ExpectedFunction, "Expected a function"),
        (RuntimeError::InvalidOperator, "Invalid operator"),
        (RuntimeError::InvalidLiteral, "Invalid literal"),
        (RuntimeError::InvalidNode, "Invalid node"),
        (RuntimeError::IndexOutOfRange, "Index out of range"),
        (RuntimeError::DivisionByZero, "Division by zero"),
        (RuntimeError::ArityMismatch, "Wrong number of arguments"),
        (RuntimeError::CallDepthExceeded, "Call depth exceeded"),
        (RuntimeError::InputExhausted, "No line to read"),
    ];
    for (error, message) in messages {
        assert_eq!(error.message(), message);
    }
}

#[test]
fn values_are_copied_by_clone() {
    let values = [
        Value::Number(1),
        text("a"),
        Value::Boolean(false),
        Value::Float("1.5".to_string()),
        Value::List(vec![numbers(&[1]), text("b")]),
        Value::Function(branch(
            NodeType::Function,
            vec![leaf(NodeType::Identifier, "x")],
        )),
        Value::Null,
    ];
    for v in values {
        assert_eq!(v.clone(), v);
    }
}

#[test]
fn a_scope_binds_names() {
    let mut scope = Scope::new();
    assert!(!scope.contains("x"));
    assert_eq!(scope.get("x"), None);
    scope.insert("x".to_string(), Value::Number(1));
    scope.insert("y".to_string(), Value::Number(2));
    assert!(scope.contains("x"));
    assert_eq!(scope.get("x"), Some(Value::Number(1)));
    assert_eq!(scope.get("y"), Some(Value::Number(2)));
    scope.insert("x".to_string(), text("new"));
    assert_eq!(scope.get("x"), Some(text("new")));
    assert_eq!(scope.get("y"), Some(Value::Number(2)));
    assert!(!scope.contains("z"));
    assert!(!scope.contains(""));
}

#[test]
fn the_innermost_scope_comes_first() {
    let mut scopes = ScopeManager::new();
    assert!(!scopes.contains_identifier("x"));
    assert_eq!(scopes.get_identifier("x"), None);
    scopes.insert_identifier("x".to_string(), Value::Number(1));
    scopes.insert_identifier("g".to_string(), Value::Number(10));
    scopes.new_scope();
    assert_eq!(scopes.get_identifier("x"), Some(Value::Number(1)));
    scopes.insert_identifier("x".to_string(), Value::Number(2));
    assert_eq!(scopes.get_identifier("x"), Some(Value::Number(2)));
    assert!(scopes.reassign_identifier("x".to_string(), Value::Number(3)));
    assert!(scopes.reassign_identifier("g".to_string(), Value::Number(11)));
    assert!(!scopes.reassign_identifier("z".to_string(), Value::Number(0)));
    assert!(!scopes.contains_identifier("z"));
    assert_eq!(scopes.get_identifier("x"), Some(Value::Number(3)));
    let mut frame = Scope::new();
    frame.insert("p".to_string(), Value::Number(7));
    scopes.new_scope_with_values(frame);
    assert_eq!(scopes.get_identifier("p"), Some(Value::Number(7)));
    assert_eq!(scopes.get_identifier("x"), Some(Value::Number(3)));
    scopes.pop_scope();
    assert_eq!(scopes.get_identifier("p"), None);
    scopes.pop_scope();
    assert_eq!(scopes.get_identifier("x"), Some(Value::Number(1)));
    assert_eq!(scopes.get_identifier("g"), Some(Value::Number(11)));
    scopes.pop_scope();
    assert_eq!(scopes.get_identifier("x"), None);
    scopes.insert_identifier("x".to_string(), Value::Number(1));
    assert_eq!(scopes.get_identifier("x"), None);
    scopes.pop_scope();
    assert_eq!(scopes.get_identifier("g"), None);
}

#[test]
fn round_trip_rendering() {
    for n in [0, 1, -1, 42, -42, 1000000, i32::MAX, i32::MIN] {
        assert_eq!(literal(&rendered(&Value::Number(n))), Ok(Value::Number(n)));
    }
    for b in [true, false] {
        assert_eq!(
            literal(&rendered(&Value::Boolean(b))),
            Ok(Value::Boolean(b))
        );
    }
    for s in ["", "a", "hello world", "1.5", "true", "-12", "tab\there", "é"] {
        let quoted = format!("\"{}\"", rendered(&text(s)));
        assert_eq!(literal(&quoted), Ok(text(s)));
    }
    assert_eq!(value("print(12)"), value("12"));
    assert_eq!(value("print(\"a b\")"), value("\"a b\""));
    assert_eq!(value("print(true)"), value("true"));
}

fn function_of(source: &str) -> Node {
    match value(source) {
        Value::Function(node) => node,
        other => panic!("not a function: {:?}", other),
    }
}

#[test]
fn a_call_leaves_every_scope_with_the_names_it_had() {
    let function = function_of("funk f(p) { let made = p; if true { let deep = made } deep }");
    let mut interpreter = Interpreter::new();
    interpreter.evaluate(program("let before = 1")).unwrap();
    assert_eq!(
        interpreter
            .evaluate_function(&function, vec![Value::Number(7)], 5)
            .unwrap()
            .value,
        Value::Number(7)
    );
    assert_eq!(interpreter.lookup("before"), Some(Value::Number(1)));
    for name in ["p", "made", "deep", "f"] {
        assert_eq!(interpreter.lookup(name), None);
        assert_eq!(
            interpreter.evaluate(program(name)),
            Err(RuntimeError::IdentifierNotFound)
        );
    }
}

#[test]
fn a_call_that_returns_or_fails_drops_its_scope() {
    let returns = function_of("funk f(p) { let n = 1; if true { return p } 2 }");
    let fails = function_of("funk f(p) { let n = 1; p / 0 }");
    let mut interpreter = Interpreter::new();
    let result = interpreter
        .evaluate_function(&returns, vec![Value::Number(7)], 5)
        .unwrap();
    assert_eq!(result.value, Value::Number(7));
    assert!(!result.returned);
    assert_eq!(interpreter.lookup("n"), None);
    assert_eq!(interpreter.lookup("p"), None);
    assert!(matches!(
        interpreter.evaluate_function(&fails, vec![Value::Number(7)], 5),
        Err(RuntimeError::DivisionByZero)
    ));
    assert_eq!(interpreter.lookup("n"), None);
    assert_eq!(interpreter.lookup("p"), None);
    interpreter.evaluate(program("let top = 3")).unwrap();
    assert_eq!(interpreter.lookup("top"), Some(Value::Number(3)));
}

#[test]
fn a_call_leaves_the_list_of_the_caller_as_it_was() {
    let list = numbers(&[1, 2, 3]);
    for body in [
        "funk f(p) { p = [9]; p }",
        "funk f(p) { let list p = p + [4]; p }",
        "funk f(x) { x = [9]; x }",
        "funk f(x) { let list x = x + [4]; x = tail(x); x }",
    ] {
        let function = function_of(body);
        let mut interpreter = Interpreter::new();
        interpreter.evaluate(program("let x = [1, 2, 3]")).unwrap();
        let argument = interpreter.lookup("x").unwrap();
        let result = interpreter
            .evaluate_function(&function, vec![argument], 5)
            .unwrap();
        assert_ne!(result.value, list);
        assert_eq!(interpreter.lookup("x"), Some(numbers(&[1, 2, 3])));
        assert_eq!(interpreter.evaluate(program("x")), Ok(numbers(&[1, 2, 3])));
        assert_eq!(interpreter.lookup("p"), None);
    }
}

#[test]
fn evaluate_function_needs_a_function_and_its_arguments() {
    let function = function_of("funk f(a, b) { a + b }");
    let mut interpreter = Interpreter::new();
    assert!(matches!(
        interpreter.evaluate_function(&function, vec![Value::Number(1)], 5),
        Err(RuntimeError::ArityMismatch)
    ));
    assert!(matches!(
        interpreter.evaluate_function(&branch(NodeType::Function, vec![]), vec![], 5),
        Err(RuntimeError::InvalidNode)
    ));
    assert_eq!(
        interpreter
            .evaluate_function(&function, vec![Value::Number(1), Value::Number(2)], 0)
            .unwrap()
            .value,
        Value::Number(3)
    );
    let nested = function_of("funk g() { g() }");
    interpreter.evaluate(program("funk g() { 1 }")).unwrap();
    assert_eq!(
        interpreter.evaluate_function(&nested, vec![], 1).unwrap().value,
        Value::Number(1)
    );
    assert!(matches!(
        interpreter.evaluate_function(&nested, vec![], 0),
        Err(RuntimeError::CallDepthExceeded)
    ));
}

#[test]
fn store_functions_binds_every_declaration_and_nothing_else() {
    let root = program(
        "let x = 1; early(); \
         funk outer(a) { funk inner(b) { b } let y = 2; inner(a) } \
         if false { funk hidden() { 3 } } \
         funk twice() { 1 } funk twice() { 2 }",
    );
    let mut interpreter = Interpreter::new();
    interpreter.store_functions(&root);
    for name in ["outer", "inner", "hidden", "twice"] {
        assert!(matches!(
            interpreter.lookup(name),
            Some(Value::Function(_))
        ));
    }
    for name in ["x", "y", "a", "b", "early"] {
        assert_eq!(interpreter.lookup(name), None);
    }
    let declared = |name: &str, which: usize| {
        let mut found = Vec::new();
        let mut pending = vec![&root];
        while let Some(node) = pending.pop() {
            if node.node_type == NodeType::Declaration
                && node.children[0].value.as_deref() == Some(name)
            {
                found.push(node.children[1].clone());
            }
            for child in node.children.iter().rev() {
                pending.push(child);
            }
        }
        found[which].clone()
    };
    assert_eq!(
        interpreter.lookup("inner"),
        Some(Value::Function(declared("inner", 0)))
    );
    assert_eq!(
        interpreter.lookup("hidden"),
        Some(Value::Function(declared("hidden", 0)))
    );
    assert_eq!(
        interpreter.lookup("twice"),
        Some(Value::Function(declared("twice", 1)))
    );
    assert_eq!(
        interpreter.evaluate(program("twice() + inner(40)")),
        Ok(Value::Number(42))
    );
}

#[test]
fn lookup_finds_what_the_scopes_bind() {
    let mut interpreter = Interpreter::new();
    assert_eq!(interpreter.lookup("x"), None);
    interpreter.evaluate(program("let x = \"a\"; x = x + \"b\"")).unwrap();
    assert_eq!(interpreter.lookup("x"), Some(text("ab")));
    assert_eq!(interpreter.lookup("y"), None);
    assert_eq!(interpreter.lookup(""), None);
}
