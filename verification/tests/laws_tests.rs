use calculator::interpreter::error::RuntimeError;
use calculator::interpreter::interpreter::Interpreter;
use calculator::lexer::lexer::{is_operator, is_reserved, Lexer};
use calculator::parser::parser::Parser;
use calculator::token::token::{TokenType, Value};

fn run(input: &str) -> Result<Value, RuntimeError> {
    let tokens = Lexer::new(input.to_string()).lex().unwrap();
    let root = Parser::new(tokens).parse().unwrap();
    Interpreter::new().evaluate(root)
}

const SAMPLES: [i32; 9] = [0, 1, 2, 7, 10, 255, 65536, 1000000007, 2147483647];

#[test]
fn pure_arithmetic_on_samples() {
    for a in SAMPLES {
        for b in SAMPLES {
            assert_eq!(
                run(&format!("{} + {}", a, b)),
                Ok(Value::Number(a.wrapping_add(b)))
            );
            assert_eq!(
                run(&format!("{} - {}", a, b)),
                Ok(Value::Number(a.wrapping_sub(b)))
            );
            assert_eq!(
                run(&format!("{} * {}", a, b)),
                Ok(Value::Number(a.wrapping_mul(b)))
            );
        }
    }
}

#[test]
fn precedence_on_samples() {
    for a in SAMPLES {
        for b in SAMPLES {
            for c in SAMPLES {
                assert_eq!(
                    run(&format!("{} + {} * {}", a, b, c)),
                    Ok(Value::Number(a.wrapping_add(b.wrapping_mul(c))))
                );
                assert_eq!(
                    run(&format!("{} + {} * {}", a, b, c)),
                    run(&format!("{} + ({} * {})", a, b, c))
                );
            }
        }
    }
}

#[test]
fn left_associativity_on_samples() {
    for a in SAMPLES {
        for b in SAMPLES {
            for c in SAMPLES {
                assert_eq!(
                    run(&format!("{} - {} - {}", a, b, c)),
                    Ok(Value::Number(a.wrapping_sub(b).wrapping_sub(c)))
                );
                assert_eq!(
                    run(&format!("{} - {} - {}", a, b, c)),
                    run(&format!("({} - {}) - {}", a, b, c))
                );
            }
        }
    }
}

#[test]
fn a_call_leaves_no_binding() {
    let mut interpreter = Interpreter::new();
    let source = "let before = 1; \
                  funk f(p) { let made = p + before; if true { let nested = made } nested } \
                  f(1)";
    let tokens = Lexer::new(source.to_string()).lex().unwrap();
    let root = Parser::new(tokens).parse().unwrap();
    assert_eq!(interpreter.evaluate(root), Ok(Value::Number(2)));
    for (name, found) in [
        ("before", true),
        ("f", true),
        ("p", false),
        ("made", false),
        ("nested", false),
    ] {
        let tokens = Lexer::new(name.to_string()).lex().unwrap();
        let root = Parser::new(tokens).parse().unwrap();
        assert_eq!(interpreter.evaluate(root).is_ok(), found);
    }
}

#[test]
fn a_parameter_of_the_same_name_hides_the_list_of_the_caller() {
    assert_eq!(
        run("let l = [1, 2]; funk f(l) { l = tail(l); l = l + [9]; l } let r = f(l); let both = [l, r]; both"),
        Ok(Value::List(vec![
            Value::List(vec![Value::Number(1), Value::Number(2)]),
            Value::List(vec![Value::Number(2), Value::Number(9)]),
        ]))
    );
}

#[test]
fn a_call_before_the_declaration_finds_the_function() {
    assert_eq!(
        run("let r = twice(21); funk twice(x) { x * 2 } r"),
        Ok(Value::Number(42))
    );
    assert_eq!(
        run("first(); funk first() { second() } funk second() { 5 } first()"),
        Ok(Value::Number(5))
    );
}

#[test]
fn the_text_of_every_token_fits_its_kind() {
    let sources = [
        "let int x1 = 12 >= 3; // c\n\"a b\" /* z */ foo(1)[2]",
        "funk add2(int x, list _y) { if (x != 0) { return x % 2 } else { [x, \"s\"] } }",
        "a<b<=c>d>=e==f!=g+h-i*j/k%l=m",
        "println(is_function(head(tail(\"\"))))",
        "x1y2 _ __a9 true false input() len type",
    ];
    for source in sources {
        let tokens = Lexer::new(source.to_string()).lex().unwrap();
        assert!(!tokens.is_empty());
        for token in tokens {
            let text = token.value.as_str();
            let fits = match token.token_type {
                TokenType::Number => !text.is_empty() && text.chars().all(|c| c.is_ascii_digit()),
                TokenType::Operator => is_operator(text),
                TokenType::Keyword => is_reserved(text),
                TokenType::Identifier => {
                    let first = text.chars().next().unwrap();
                    (first.is_ascii_alphabetic() || first == '_')
                        && text.chars().all(|c| c.is_ascii_alphanumeric() || c == '_')
                        && !is_reserved(text)
                }
                TokenType::String => {
                    text.len() >= 2
                        && text.starts_with('"')
                        && text.ends_with('"')
                        && !text[1..text.len() - 1].contains('"')
                }
                TokenType::LeftParen => text == "(",
                TokenType::RightParen => text == ")",
                TokenType::LeftBrace => text == "{",
                TokenType::RightBrace => text == "}",
                TokenType::LeftBracket => text == "[",
                TokenType::RightBracket => text == "]",
                TokenType::Comma => text == ",",
            };
            assert!(fits);
            assert!(token.line >= 1);
        }
    }
}

#[test]
fn programs_that_parse_do_not_fail_as_malformed_trees() {
    let sources = [
        "1 + 2",
        "x",
        "x = 1",
        "let x = [1, 2]; x[5]",
        "f(1)",
        "funk f(a) { a } f()",
        "funk f(a) { a } f(1, 2)",
        "1 + true",
        "if 1 { 2 }",
        "head([])",
        "len(1)",
        "1 / 0",
        "99999999999",
        "input()",
        "let f = 1; f(2)",
        "funk f() { f() } f()",
        "funk g() { funk h(x) { x[0] } h(1) } g()",
        "return 1",
    ];
    for source in sources {
        match run(source) {
            Err(RuntimeError::InvalidNode) | Err(RuntimeError::InvalidOperator) => {
                panic!("malformed: {}", source)
            }
            _ => {}
        }
    }
}

#[test]
fn only_what_binds_a_name_changes_it() {
    assert_eq!(
        run("let x = [1, 2]; \
             funk g(a) { let t = a + a; t } \
             funk f(l) { l = l + [3]; let y = g(l); if true { y = tail(y) } y } \
             let r = f(x); let both = [x, r]; both"),
        Ok(Value::List(vec![
            Value::List(vec![Value::Number(1), Value::Number(2)]),
            Value::List(vec![
                Value::Number(2),
                Value::Number(3),
                Value::Number(1),
                Value::Number(2),
                Value::Number(3),
            ]),
        ]))
    );
    assert_eq!(
        run("let x = 1; funk f() { x = 2 } f(); x"),
        Ok(Value::Number(2))
    );
}
