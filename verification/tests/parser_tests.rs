use calculator::lexer::lexer::Lexer;
use calculator::node::node::{kind_name, Node, NodeType};
use calculator::parser::grammar::ParseErrorKind;
use calculator::parser::parser::{ParseError, Parser};
use calculator::token::token::{Token, TokenType};

fn parse(input: &str) -> Result<Node, ParseError> {
    let tokens = Lexer::new(input.to_string()).lex().unwrap();
    Parser::new(tokens).parse()
}

fn tree(input: &str) -> String {
    let root = parse(input).unwrap();
    Parser::new(Vec::new()).print_tree(&root, 0)
}

fn failure(input: &str) -> (ParseErrorKind, i32, String) {
    let e = parse(input).unwrap_err();
    (e.kind, e.line, e.value)
}

fn leaf(kind: NodeType, value: &str) -> Node {
    Node {
        value: Some(value.to_string()),
        node_type: kind,
        children: vec![],
    }
}

fn branch(kind: NodeType, children: Vec<Node>) -> Node {
    Node {
        value: None,
        node_type: kind,
        children,
    }
}

fn named(kind: NodeType, value: &str, children: Vec<Node>) -> Node {
    Node {
        value: Some(value.to_string()),
        node_type: kind,
        children,
    }
}

fn number(value: &str) -> Node {
    branch(
        NodeType::Term,
        vec![branch(
            NodeType::Factor,
            vec![leaf(NodeType::Literal, value)],
        )],
    )
}

fn expression(inner: Node) -> Node {
    branch(NodeType::Expression, vec![inner])
}

#[test]
fn no_tokens_are_an_empty_program() {
    assert_eq!(parse("").unwrap(), branch(NodeType::Program, vec![]));
    assert_eq!(tree(""), "Program\n");
}

#[test]
fn a_number_is_a_program() {
    assert_eq!(
        parse("7").unwrap(),
        branch(NodeType::Program, vec![expression(number("7"))])
    );
}

#[test]
fn node_constructors_build_the_nodes() {
    assert_eq!(
        Node::leaf(NodeType::Literal, "7".to_string()),
        leaf(NodeType::Literal, "7")
    );
    assert_eq!(
        Node::branch(NodeType::List, vec![leaf(NodeType::Literal, "7")]),
        branch(NodeType::List, vec![leaf(NodeType::Literal, "7")])
    );
    assert_eq!(
        Node::named(NodeType::Operation, "+".to_string(), vec![]),
        named(NodeType::Operation, "+", vec![])
    );
    let node = expression(number("7"));
    assert_eq!(node.clone(), node);
}

#[test]
fn multiplication_binds_tighter_than_addition() {
    assert_eq!(
        tree("1 + 2 * 3"),
        "Program\n\
         \x20 Expression\n\
         \x20   Operation: + \n\
         \x20     Term\n\
         \x20       Factor\n\
         \x20         Literal: 1 \n\
         \x20     Term\n\
         \x20       Operation: * \n\
         \x20         Factor\n\
         \x20           Literal: 2 \n\
         \x20         Factor\n\
         \x20           Literal: 3 \n"
    );
}

#[test]
fn operators_of_one_level_join_from_the_left() {
    let minus = |left: Node, right: Node| named(NodeType::Operation, "-", vec![left, right]);
    assert_eq!(
        parse("1 - 2 - 3").unwrap(),
        branch(
            NodeType::Program,
            vec![expression(minus(minus(number("1"), number("2")), number("3")))]
        )
    );
    let factor = |value: &str| branch(NodeType::Factor, vec![leaf(NodeType::Literal, value)]);
    let over = |left: Node, right: Node| named(NodeType::Operation, "/", vec![left, right]);
    assert_eq!(
        parse("8 / 4 / 2").unwrap(),
        branch(
            NodeType::Program,
            vec![expression(branch(
                NodeType::Term,
                vec![over(over(factor("8"), factor("4")), factor("2"))]
            ))]
        )
    );
}

#[test]
fn comparisons_stand_at_the_level_of_sums() {
    let op = |text: &str, left: Node, right: Node| {
        named(NodeType::Operation, text, vec![left, right])
    };
    assert_eq!(
        parse("1 < 2 + 3").unwrap(),
        branch(
            NodeType::Program,
            vec![expression(op(
                "+",
                op("<", number("1"), number("2")),
                number("3")
            ))]
        )
    );
    for text in ["==", "!=", ">", ">=", "<", "<=", "+", "-"] {
        assert_eq!(
            parse(&format!("1 {} 2", text)).unwrap(),
            branch(
                NodeType::Program,
                vec![expression(op(text, number("1"), number("2")))]
            )
        );
    }
}

#[test]
fn parentheses_hold_an_expression() {
    assert_eq!(
        tree("(1 + 2) * 3"),
        "Program\n\
         \x20 Expression\n\
         \x20   Term\n\
         \x20     Operation: * \n\
         \x20       Factor\n\
         \x20         Expression\n\
         \x20           Operation: + \n\
         \x20             Term\n\
         \x20               Factor\n\
         \x20                 Literal: 1 \n\
         \x20             Term\n\
         \x20               Factor\n\
         \x20                 Literal: 2 \n\
         \x20       Factor\n\
         \x20         Literal: 3 \n"
    );
}

#[test]
fn let_binds_a_name() {
    let expected = "Program\n\
         \x20 Expression\n\
         \x20   Assignment\n\
         \x20     Identifier: x \n\
         \x20     Expression\n\
         \x20       Term\n\
         \x20         Factor\n\
         \x20           Literal: 6 \n";
    assert_eq!(tree("let x = 6"), expected);
    assert_eq!(tree("let int x = 6;"), expected);
    for hint in ["bool", "int", "str", "list", "function"] {
        assert_eq!(tree(&format!("let {} x = 6", hint)), expected);
    }
}

#[test]
fn a_name_and_an_equals_sign_are_a_reassignment() {
    assert_eq!(
        tree("x = \"a\""),
        "Program\n\
         \x20 Expression\n\
         \x20   Reassignment\n\
         \x20     Identifier: x \n\
         \x20     Expression\n\
         \x20       Term\n\
         \x20         Factor\n\
         \x20           Literal: \"a\" \n"
    );
}

#[test]
fn every_statement_is_an_expression_node() {
    let root = parse("let x = 1; x = 2; x; if x == 2 { 3 } funk f() { } return 4 print(5)")
        .unwrap();
    assert_eq!(root.node_type, NodeType::Program);
    assert_eq!(root.children.len(), 7);
    let kinds: Vec<NodeType> = root
        .children
        .iter()
        .map(|statement| {
            assert_eq!(statement.node_type, NodeType::Expression);
            assert_eq!(statement.children.len(), 1);
            statement.children[0].node_type
        })
        .collect();
    assert_eq!(
        kinds,
        vec![
            NodeType::Assignment,
            NodeType::Reassignment,
            NodeType::Term,
            NodeType::If,
            NodeType::Declaration,
            NodeType::Return,
            NodeType::FunctionCall,
        ]
    );
}

#[test]
fn if_has_a_condition_and_one_or_two_branches() {
    assert_eq!(
        tree("if true { 1 }"),
        "Program\n\
         \x20 Expression\n\
         \x20   If\n\
         \x20     Expression\n\
         \x20       Term\n\
         \x20         Factor\n\
         \x20           Literal: true \n\
         \x20     Block\n\
         \x20       Expression\n\
         \x20         Term\n\
         \x20           Factor\n\
         \x20             Literal: 1 \n"
    );
    let root = parse("if true { 1 } else { 2; 3 }").unwrap();
    let node = &root.children[0].children[0];
    assert_eq!(node.node_type, NodeType::If);
    assert_eq!(node.children.len(), 3);
    assert_eq!(node.children[1].node_type, NodeType::Block);
    assert_eq!(node.children[2].node_type, NodeType::Block);
    assert_eq!(node.children[2].children.len(), 2);
}

#[test]
fn else_if_nests_an_if() {
    let root = parse("if a { 1 } else if b { 2 } else { 3 }").unwrap();
    let outer = &root.children[0].children[0];
    assert_eq!(outer.children.len(), 3);
    let inner = &outer.children[2];
    assert_eq!(inner.node_type, NodeType::If);
    assert_eq!(inner.children.len(), 3);
    assert_eq!(inner.children[2].node_type, NodeType::Block);
}

#[test]
fn a_declaration_has_a_name_and_a_function() {
    assert_eq!(
        tree("funk add(int x, y) { return x + y }"),
        "Program\n\
         \x20 Expression\n\
         \x20   Declaration\n\
         \x20     Identifier: add \n\
         \x20     Function\n\
         \x20       Args\n\
         \x20         Identifier: x \n\
         \x20         Identifier: y \n\
         \x20       Block\n\
         \x20         Expression\n\
         \x20           Return\n\
         \x20             Expression\n\
         \x20               Operation: + \n\
         \x20                 Term\n\
         \x20                   Factor\n\
         \x20                     Identifier: x \n\
         \x20                 Term\n\
         \x20                   Factor\n\
         \x20                     Identifier: y \n"
    );
    assert_eq!(
        tree("funk f() {}"),
        "Program\n\
         \x20 Expression\n\
         \x20   Declaration\n\
         \x20     Identifier: f \n\
         \x20     Function\n\
         \x20       Args\n\
         \x20       Block\n"
    );
}

#[test]
fn a_call_has_a_name_and_parameters() {
    assert_eq!(
        tree("f(1, x)"),
        "Program\n\
         \x20 Expression\n\
         \x20   Term\n\
         \x20     Factor\n\
         \x20       FunctionCall: f \n\
         \x20         Parameters\n\
         \x20           Expression\n\
         \x20             Term\n\
         \x20               Factor\n\
         \x20                 Literal: 1 \n\
         \x20           Expression\n\
         \x20             Term\n\
         \x20               Factor\n\
         \x20                 Identifier: x \n"
    );
    assert_eq!(
        tree("input()"),
        "Program\n\
         \x20 Expression\n\
         \x20   Term\n\
         \x20     Factor\n\
         \x20       FunctionCall: input \n\
         \x20         Parameters\n"
    );
    assert_eq!(tree("f(1,)"), tree("f(1)"));
}

#[test]
fn print_is_a_statement() {
    assert_eq!(
        tree("println(x)"),
        "Program\n\
         \x20 Expression\n\
         \x20   FunctionCall: println \n\
         \x20     Parameters\n\
         \x20       Expression\n\
         \x20         Term\n\
         \x20           Factor\n\
         \x20             Identifier: x \n"
    );
    assert_eq!(
        failure("1 + print(2)"),
        (ParseErrorKind::InvalidKeyword, 1, "print".to_string())
    );
}

#[test]
fn every_built_in_can_be_called_in_an_expression() {
    for name in [
        "head",
        "tail",
        "len",
        "type",
        "is_bool",
        "is_number",
        "is_string",
        "is_list",
        "is_function",
        "input",
    ] {
        let root = parse(&format!("1 + {}(x)", name)).unwrap();
        let call = &root.children[0].children[0].children[1].children[0].children[0];
        assert_eq!(call.node_type, NodeType::FunctionCall);
        assert_eq!(call.value, Some(name.to_string()));
        let statement = parse(&format!("{}(x)", name)).unwrap();
        assert_eq!(
            statement.children[0].children[0].children[0].children[0],
            *call
        );
    }
}

#[test]
fn an_index_has_what_is_indexed_and_a_position() {
    assert_eq!(
        tree("x[1]"),
        "Program\n\
         \x20 Expression\n\
         \x20   Term\n\
         \x20     Factor\n\
         \x20       Index\n\
         \x20         Identifier: x \n\
         \x20         Expression\n\
         \x20           Term\n\
         \x20             Factor\n\
         \x20               Literal: 1 \n"
    );
    assert_eq!(
        tree("f()[1]"),
        "Program\n\
         \x20 Expression\n\
         \x20   Term\n\
         \x20     Factor\n\
         \x20       Index\n\
         \x20         FunctionCall: f \n\
         \x20           Parameters\n\
         \x20         Expression\n\
         \x20           Term\n\
         \x20             Factor\n\
         \x20               Literal: 1 \n"
    );
}

#[test]
fn a_list_has_its_elements() {
    assert_eq!(
        tree("[1, x]"),
        "Program\n\
         \x20 Expression\n\
         \x20   Term\n\
         \x20     Factor\n\
         \x20       List\n\
         \x20         Expression\n\
         \x20           Term\n\
         \x20             Factor\n\
         \x20               Literal: 1 \n\
         \x20         Expression\n\
         \x20           Term\n\
         \x20             Factor\n\
         \x20               Identifier: x \n"
    );
    assert_eq!(
        tree("[]"),
        "Program\n\
         \x20 Expression\n\
         \x20   Term\n\
         \x20     Factor\n\
         \x20       List\n"
    );
}

#[test]
fn print_tree_indents_by_level() {
    let node = named(
        NodeType::Operation,
        "+",
        vec![leaf(NodeType::Literal, "1"), branch(NodeType::List, vec![])],
    );
    let parser = Parser::new(Vec::new());
    assert_eq!(
        parser.print_tree(&node, 0),
        "Operation: + \n  Literal: 1 \n  List\n"
    );
    assert_eq!(
        parser.print_tree(&node, 2),
        "    Operation: + \n      Literal: 1 \n      List\n"
    );
}

#[test]
fn every_kind_has_its_name() {
    let kinds = [
        (NodeType::Expression, "Expression"),
        (NodeType::Term, "Term"),
        (NodeType::Factor, "Factor"),
        (NodeType::Identifier, "Identifier"),
        (NodeType::Operation, "Operation"),
        (NodeType::Declaration, "Declaration"),
        (NodeType::Assignment, "Assignment"),
        (NodeType::Reassignment, "Reassignment"),
        (NodeType::FunctionCall, "FunctionCall"),
        (NodeType::Literal, "Literal"),
        (NodeType::If, "If"),
        (NodeType::Function, "Function"),
        (NodeType::Args, "Args"),
        (NodeType::TypeAnnotation, "TypeAnnotation"),
        (NodeType::Parameters, "Parameters"),
        (NodeType::Program, "Program"),
        (NodeType::MapIndex, "MapIndex"),
        (NodeType::Index, "Index"),
        (NodeType::List, "List"),
        (NodeType::Mapping, "Map"),
        (NodeType::Block, "Block"),
        (NodeType::Return, "Return"),
    ];
    for (kind, name) in kinds {
        assert_eq!(kind_name(kind), name);
    }
}

#[test]
fn invalid_keyword() {
    assert_eq!(
        failure("else"),
        (ParseErrorKind::InvalidKeyword, 1, "else".to_string())
    );
    assert_eq!(
        failure("1 +\nlet"),
        (ParseErrorKind::InvalidKeyword, 2, "let".to_string())
    );
    assert_eq!(
        failure("int"),
        (ParseErrorKind::InvalidKeyword, 1, "int".to_string())
    );
    assert_eq!(
        failure("f(if)"),
        (ParseErrorKind::InvalidKeyword, 1, "if".to_string())
    );
}

#[test]
fn invalid_factor() {
    assert_eq!(
        failure(")"),
        (ParseErrorKind::InvalidFactor, 1, ")".to_string())
    );
    assert_eq!(
        failure("1 + * 2"),
        (ParseErrorKind::InvalidFactor, 1, "*".to_string())
    );
    assert_eq!(
        failure("- 1"),
        (ParseErrorKind::InvalidFactor, 1, "-".to_string())
    );
    assert_eq!(
        failure("1 = 2"),
        (ParseErrorKind::InvalidFactor, 1, "=".to_string())
    );
    assert_eq!(
        failure("x\n}"),
        (ParseErrorKind::InvalidFactor, 2, "}".to_string())
    );
}

#[test]
fn expected_identifier() {
    assert_eq!(
        failure("let 5 = 3"),
        (ParseErrorKind::ExpectedIdentifier, 1, "5".to_string())
    );
    assert_eq!(
        failure("let int int = 3"),
        (ParseErrorKind::ExpectedIdentifier, 1, "int".to_string())
    );
    assert_eq!(
        failure("funk (x) { }"),
        (ParseErrorKind::ExpectedIdentifier, 1, "(".to_string())
    );
    assert_eq!(
        failure("funk f(x, 1) { }"),
        (ParseErrorKind::ExpectedIdentifier, 1, "1".to_string())
    );
    assert_eq!(
        failure("funk f(x,) { }"),
        (ParseErrorKind::ExpectedIdentifier, 1, ")".to_string())
    );
}

#[test]
fn expected_assignment_operator() {
    assert_eq!(
        failure("let x 5"),
        (
            ParseErrorKind::ExpectedAssignmentOperator,
            1,
            "5".to_string()
        )
    );
    assert_eq!(
        failure("let x == 5"),
        (
            ParseErrorKind::ExpectedAssignmentOperator,
            1,
            "==".to_string()
        )
    );
}

#[test]
fn expected_left_parenthesis() {
    assert_eq!(
        failure("funk f { }"),
        (ParseErrorKind::ExpectedLeftParen, 1, "{".to_string())
    );
    assert_eq!(
        failure("print 5"),
        (ParseErrorKind::ExpectedLeftParen, 1, "5".to_string())
    );
    assert_eq!(
        failure("1 + len x"),
        (ParseErrorKind::ExpectedLeftParen, 1, "x".to_string())
    );
}

#[test]
fn expected_right_parenthesis() {
    assert_eq!(
        failure("(1 + 2 3"),
        (ParseErrorKind::ExpectedRightParen, 1, "3".to_string())
    );
    assert_eq!(
        failure("f(1 2)"),
        (ParseErrorKind::ExpectedRightParen, 1, "2".to_string())
    );
    assert_eq!(
        failure("funk f(a b) { }"),
        (ParseErrorKind::ExpectedRightParen, 1, "b".to_string())
    );
}

#[test]
fn expected_left_brace() {
    assert_eq!(
        failure("if true 1"),
        (ParseErrorKind::ExpectedLeftBrace, 1, "1".to_string())
    );
    assert_eq!(
        failure("funk f() 1"),
        (ParseErrorKind::ExpectedLeftBrace, 1, "1".to_string())
    );
    assert_eq!(
        failure("if true { 1 } else 2"),
        (ParseErrorKind::ExpectedLeftBrace, 1, "2".to_string())
    );
}

#[test]
fn expected_right_bracket() {
    assert_eq!(
        failure("x[1 2]"),
        (ParseErrorKind::ExpectedRightBracket, 1, "2".to_string())
    );
    assert_eq!(
        failure("f()[1)"),
        (ParseErrorKind::ExpectedRightBracket, 1, ")".to_string())
    );
}

#[test]
fn expected_comma() {
    assert_eq!(
        failure("[1 2]"),
        (ParseErrorKind::ExpectedComma, 1, "2".to_string())
    );
    assert_eq!(
        failure("[1, 2)"),
        (ParseErrorKind::ExpectedComma, 1, ")".to_string())
    );
}

#[test]
fn unexpected_end() {
    for source in [
        "let",
        "let x",
        "let x =",
        "x =",
        "1 +",
        "2 *",
        "(",
        "(1",
        "[",
        "[1",
        "[1,",
        "x[",
        "x[1",
        "f(",
        "f(1",
        "f(1,",
        "if",
        "if true",
        "if true {",
        "if true { 1",
        "if true { 1 } else",
        "funk",
        "funk f",
        "funk f(",
        "funk f(x",
        "funk f(x)",
        "funk f(x) {",
        "return",
        "print",
        "print(",
    ] {
        let e = parse(source).unwrap_err();
        assert_eq!(e.kind, ParseErrorKind::UnexpectedEnd);
        assert_eq!(e.line, 1);
        assert_eq!(e.value, "");
    }
    assert_eq!(
        failure("let x\n=\n"),
        (ParseErrorKind::UnexpectedEnd, 2, String::new())
    );
}

#[test]
fn parse_error_messages() {
    let message = |kind: ParseErrorKind| {
        ParseError {
            kind,
            line: 12,
            value: "foo".to_string(),
        }
        .message()
    };
    assert_eq!(
        message(ParseErrorKind::InvalidKeyword),
        "Error found near line 12 with value 'foo': Invalid keyword"
    );
    assert_eq!(
        message(ParseErrorKind::InvalidFactor),
        "Error found near line 12 with value 'foo': Invalid factor"
    );
    assert_eq!(
        message(ParseErrorKind::ExpectedIdentifier),
        "Error found near line 12 with value 'foo': Expected identifier"
    );
    assert_eq!(
        message(ParseErrorKind::ExpectedAssignmentOperator),
        "Error found near line 12 with value 'foo': Expected assignment operator"
    );
    assert_eq!(
        message(ParseErrorKind::ExpectedLeftParen),
        "Error found near line 12 with value 'foo': Expected left parenthesis"
    );
    assert_eq!(
        message(ParseErrorKind::ExpectedRightParen),
        "Error found near line 12 with value 'foo': Expected right parenthesis"
    );
    assert_eq!(
        message(ParseErrorKind::ExpectedLeftBrace),
        "Error found near line 12 with value 'foo': Expected left brace"
    );
    assert_eq!(
        message(ParseErrorKind::ExpectedRightBracket),
        "Error found near line 12 with value 'foo': Expected right bracket"
    );
    assert_eq!(
        message(ParseErrorKind::ExpectedComma),
        "Error found near line 12 with value 'foo': Expected comma"
    );
    assert_eq!(
        message(ParseErrorKind::UnexpectedEnd),
        "Error found near line 12 with value 'foo': Unexpected end of input"
    );
    assert_eq!(
        parse("let 5").unwrap_err().message(),
        "Error found near line 1 with value '5': Expected identifier"
    );
    assert_eq!(
        ParseErrorKind::ExpectedComma.describe(),
        "Expected comma"
    );
}

#[test]
fn parsing_starts_at_the_current_position() {
    let tokens = vec![
        Token::new(TokenType::Number, "1".to_string(), 1),
        Token::new(TokenType::Number, "2".to_string(), 1),
    ];
    let mut parser = Parser::new(tokens);
    let first = parser.parse().unwrap();
    assert_eq!(first.children.len(), 2);
    let second = parser.parse().unwrap();
    assert_eq!(second, branch(NodeType::Program, vec![]));
}

fn tokens(input: &str) -> Vec<Token> {
    Lexer::new(input.to_string()).lex().unwrap()
}

#[test]
fn the_tail_of_an_expression_joins_from_the_left() {
    let minus = |left: Node, right: Node| named(NodeType::Operation, "-", vec![left, right]);
    for (a, b, c) in [(1, 2, 3), (10, 4, 3), (0, 0, 0), (2147483647, 65536, 9)] {
        let source = format!("{} - {} - {}", a, b, c);
        let mut parser = Parser::new(tokens(&source));
        let first = parser.term().unwrap();
        assert_eq!(first, number(&a.to_string()));
        let tree = parser.expression_tail(first).unwrap();
        assert_eq!(
            tree,
            minus(
                minus(number(&a.to_string()), number(&b.to_string())),
                number(&c.to_string())
            )
        );
        assert_eq!(tree.children[0].node_type, NodeType::Operation);
        assert_eq!(tree.children[1], number(&c.to_string()));
        assert_eq!(parser.parse().unwrap(), branch(NodeType::Program, vec![]));
    }
}

#[test]
fn the_tail_of_an_expression_ends_where_no_operator_follows() {
    let mut parser = Parser::new(tokens("1 * 2 3"));
    let first = parser.term().unwrap();
    let tree = parser.expression_tail(first.clone()).unwrap();
    assert_eq!(tree, first);
    assert_eq!(parser.factor().unwrap(), number("3").children[0]);
    let mut parser = Parser::new(tokens("1 + "));
    let first = parser.term().unwrap();
    assert_eq!(
        parser.expression_tail(first).unwrap_err().kind,
        ParseErrorKind::UnexpectedEnd
    );
}

#[test]
fn the_rules_of_the_grammar_one_by_one() {
    let factor = |value: &str| branch(NodeType::Factor, vec![leaf(NodeType::Literal, value)]);
    let mut parser = Parser::new(tokens("2 * 3 / 4 + 5 x"));
    let first = parser.factor().unwrap();
    assert_eq!(first, factor("2"));
    let product = parser.term_tail(first).unwrap();
    assert_eq!(
        product,
        named(
            NodeType::Operation,
            "/",
            vec![
                named(NodeType::Operation, "*", vec![factor("2"), factor("3")]),
                factor("4")
            ]
        )
    );
    let sum = parser.expression_tail(product.clone()).unwrap();
    assert_eq!(
        sum,
        named(NodeType::Operation, "+", vec![product, number("5")])
    );
    assert_eq!(
        parser.statement().unwrap(),
        expression(branch(
            NodeType::Term,
            vec![branch(
                NodeType::Factor,
                vec![leaf(NodeType::Identifier, "x")]
            )]
        ))
    );
    assert_eq!(
        Parser::new(tokens("7")).expression().unwrap(),
        expression(number("7"))
    );
}
