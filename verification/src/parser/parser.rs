use crate::node::node::{
    indentation, indentation_of, lemma_node_views_push, node_views, one, push_tree, three,
    tree_text, two, Node, NodeType, NodeView,
};
use crate::node::shape::well_formed;
use crate::parser::grammar::{
    args, args_tail, assignment, at, at_text, block, block_items, branch, call_or_index, error_at,
    expression, expression_tail, factor, function_call, function_declaration, if_statement, index,
    is_builtin_call, is_expression_operator, is_term_operator, is_type_hint, list, list_tail,
    parameters, parameters_tail, program_items, reassignment, return_statement, skip_type_hint,
    statement, term, term_tail, ParseErrorKind, ParseErrorView, Parsed, ParsedList,
};
use crate::interpreter::number::push_number;
use crate::laws::parsing::{
    joins_from_the_left, lemma_program_items, lemma_program_node, lemma_tail_joins_from_the_left,
};
use crate::text::same_text;
use crate::token::token::{token_views, Token, TokenType, TokenView};
use vstd::prelude::*;
use vstd::string::StringExecFns;

verus! {

/// A failure of the parser: what it was looking for, and the line and text of
/// the token it found instead.
#[derive(Debug, PartialEq)]
pub struct ParseError {
    pub kind: ParseErrorKind,
    pub line: i32,
    pub value: String,
}

impl View for ParseError {
    type V = ParseErrorView;

    open spec fn view(&self) -> ParseErrorView {
        ParseErrorView { kind: self.kind, line: self.line, value: self.value@ }
    }
}

impl ParseError {
    /// The text of the failure, for display.
    pub fn message(&self) -> (s: String)
        ensures
            s@ == self@.text(),
    {
        let mut s = "Error found near line ".to_owned();
        push_number(self.line, &mut s);
        s.append(" with value '");
        s.append(self.value.as_str());
        s.append("': ");
        s.append(self.kind.describe());
        s
    }
}

/// Whether the outcome of a rule is the one that the grammar gives.
pub open spec fn agrees(r: Result<Node, ParseError>, q: int, expected: Parsed) -> bool {
    match (r, expected) {
        (Ok(node), Ok((tree, after))) => node@ == tree && q == after,
        (Err(e), Err(f)) => e@ == f,
        _ => false,
    }
}

/// Whether the outcome of a rule that gathers a list is the one that the
/// grammar gives.
pub open spec fn agrees_list(
    r: Result<(), ParseError>,
    items: Seq<Node>,
    q: int,
    expected: ParsedList,
) -> bool {
    match (r, expected) {
        (Ok(_), Ok((trees, after))) => node_views(items) == trees && q == after,
        (Err(e), Err(f)) => e@ == f,
        _ => false,
    }
}

/// The model of the outcome of parsing a program.
pub open spec fn parsed(r: Result<Node, ParseError>) -> Result<NodeView, ParseErrorView> {
    match r {
        Ok(node) => Ok(node@),
        Err(e) => Err(e@),
    }
}

fn is_type_hint_text(text: &str) -> (r: bool)
    ensures
        r == is_type_hint(text@),
{
    same_text(text, "bool") || same_text(text, "int") || same_text(text, "str") || same_text(
        text,
        "list",
    ) || same_text(text, "function")
}

fn is_builtin_call_text(text: &str) -> (r: bool)
    ensures
        r == is_builtin_call(text@),
{
    same_text(text, "is_bool") || same_text(text, "is_number") || same_text(text, "is_string")
        || same_text(text, "is_list") || same_text(text, "type") || same_text(text, "head")
        || same_text(text, "tail") || same_text(text, "len") || same_text(text, "input")
        || same_text(text, "is_function")
}

fn is_expression_operator_text(text: &str) -> (r: bool)
    ensures
        r == is_expression_operator(text@),
{
    same_text(text, "+") || same_text(text, "-") || same_text(text, "==") || same_text(
        text,
        "!=",
    ) || same_text(text, ">") || same_text(text, ">=") || same_text(text, "<") || same_text(
        text,
        "<=",
    )
}

fn is_term_operator_text(text: &str) -> (r: bool)
    ensures
        r == is_term_operator(text@),
{
    same_text(text, "*") || same_text(text, "/") || same_text(text, "%")
}

/// A recursive-descent parser over a sequence of tokens.
pub struct Parser {
    tokens: Vec<Token>,
    position: usize,
}

impl Parser {
    /// The tokens that the parser reads.
    pub closed spec fn tokens(&self) -> Seq<TokenView> {
        token_views(self.tokens@)
    }

    /// The position of the next token to read.
    pub closed spec fn position(&self) -> int {
        self.position as int
    }

    /// The position is inside the tokens or just after them.
    pub closed spec fn wf(&self) -> bool {
        self.position <= self.tokens.len()
    }

    /// The same parser at another position.
    pub open spec fn moved(&self, before: &Parser) -> bool {
        &&& self.tokens() == before.tokens()
        &&& self.wf()
    }

    /// A parser at the first of the given tokens.
    pub fn new(tokens: Vec<Token>) -> (parser: Parser)
        ensures
            parser.wf(),
            parser.tokens() == token_views(tokens@),
            parser.position() == 0,
    {
        Parser { tokens, position: 0 }
    }

    /// The tree of the program made of the tokens from the current position on.
    pub fn parse(&mut self) -> (r: Result<Node, ParseError>)
        requires
            old(self).wf(),
        ensures
            final(self).wf(),
            final(self).tokens() == old(self).tokens(),
            parsed(r) == match program_items(
                old(self).tokens(),
                old(self).position(),
                Seq::empty(),
            ) {
                Ok(items) => Ok(branch(NodeType::Program, items)),
                Err(e) => Err(e),
            },
            r is Ok ==> final(self).position() == final(self).tokens().len(),
            r matches Ok(root) ==> well_formed(root@) && root.node_type == NodeType::Program,
    {
        proof {
            lemma_program_items(self.tokens(), self.position(), Seq::empty());
            match program_items(self.tokens(), self.position(), Seq::empty()) {
                Ok(items) => {
                    lemma_program_node(items);
                },
                Err(_) => {},
            }
        }
        let mut items: Vec<Node> = Vec::new();
        assert(node_views(items@) =~= Seq::empty());
        while self.position < self.tokens.len()
            invariant
                self.moved(old(self)),
                program_items(old(self).tokens(), old(self).position(), Seq::empty())
                    == program_items(self.tokens(), self.position(), node_views(items@)),
            decreases self.tokens.len() - self.position,
        {
            match self.statement() {
                Ok(item) => {
                    proof {
                        lemma_node_views_push(items@, item);
                    }
                    items.push(item);
                },
                Err(e) => {
                    return Err(e);
                },
            }
        }
        Ok(Node::branch(NodeType::Program, items))
    }

    /// The tree as text, one node on each line, indented by two spaces for
    /// each level below `level`.
    pub fn print_tree(&self, root: &Node, level: usize) -> (text: String)
        ensures
            text@ == tree_text(root@, indentation(level as nat)),
    {
        let indent = indentation_of(level);
        let mut text = String::new();
        push_tree(root, indent.as_str(), &mut text);
        assert(text@ =~= tree_text(root@, indentation(level as nat)));
        text
    }

    /// Moves to the next token.
    fn next(&mut self)
        requires
            old(self).position < old(self).tokens.len(),
        ensures
            final(self).moved(old(self)),
            final(self).position == old(self).position + 1,
    {
        self.position += 1;
    }

    /// The token at the current position.
    fn peek(&self) -> (token: &Token)
        requires
            self.position < self.tokens.len(),
        ensures
            token@ == self.tokens()[self.position()],
    {
        &self.tokens[self.position]
    }

    /// Whether the token `offset` places ahead exists and has the given kind.
    fn at(&self, offset: usize, kind: TokenType) -> (r: bool)
        requires
            self.wf(),
        ensures
            r == at(self.tokens(), self.position + offset, kind),
    {
        if offset >= self.tokens.len() - self.position {
            return false;
        }
        self.tokens[self.position + offset].token_type == kind
    }

    /// Whether the token `offset` places ahead exists and has the given kind
    /// and text.
    fn at_text(&self, offset: usize, kind: TokenType, text: &str) -> (r: bool)
        requires
            self.wf(),
        ensures
            r == at_text(self.tokens(), self.position + offset, kind, text@),
    {
        if !self.at(offset, kind) {
            return false;
        }
        same_text(self.tokens[self.position + offset].value.as_str(), text)
    }

    /// The text of the token `offset` places ahead.
    fn lexeme(&self, offset: usize) -> (text: String)
        requires
            self.position + offset < self.tokens.len(),
        ensures
            text@ == self.tokens()[self.position + offset].lexeme,
    {
        self.tokens[self.position + offset].value.clone()
    }

    /// The failure to report at the token `offset` places ahead.
    fn error(&self, offset: usize, kind: ParseErrorKind) -> (e: ParseError)
        requires
            self.wf(),
        ensures
            e@ == error_at(self.tokens(), self.position + offset, kind),
    {
        let n = self.tokens.len();
        if offset < n - self.position {
            let token = &self.tokens[self.position + offset];
            ParseError { kind, line: token.line, value: token.value.clone() }
        } else if n > 0 {
            ParseError {
                kind: ParseErrorKind::UnexpectedEnd,
                line: self.tokens[n - 1].line,
                value: String::new(),
            }
        } else {
            ParseError { kind: ParseErrorKind::UnexpectedEnd, line: 1, value: String::new() }
        }
    }

    /// Moves past the type hint at the current position, if there is one.
    fn skip_type_hint(&mut self)
        requires
            old(self).wf(),
        ensures
            final(self).moved(old(self)),
            final(self).position == skip_type_hint(old(self).tokens(), old(self).position()),
    {
        if self.at(0, TokenType::Keyword) && is_type_hint_text(self.peek().value.as_str()) {
            self.next();
        }
    }

    /// `Statement → Let | If | Funk | Return | Print | Reassignment | Expression`
    pub fn statement(&mut self) -> (r: Result<Node, ParseError>)
        requires
            old(self).wf(),
        ensures
            final(self).moved(old(self)),
            agrees(r, final(self).position(), statement(old(self).tokens(), old(self).position())),
            r is Ok ==> final(self).position() > old(self).position(),
        decreases old(self).tokens().len() - old(self).position(), 11int,
    {
        if self.position >= self.tokens.len() {
            return Err(self.error(0, ParseErrorKind::UnexpectedEnd));
        }
        let inner = if self.at(0, TokenType::Keyword) {
            if self.at_text(0, TokenType::Keyword, "let") {
                self.next();
                self.assignment()
            } else if self.at_text(0, TokenType::Keyword, "if") {
                self.next();
                self.if_statement()
            } else if self.at_text(0, TokenType::Keyword, "funk") {
                self.next();
                self.function_declaration()
            } else if self.at_text(0, TokenType::Keyword, "return") {
                self.next();
                self.return_statement()
            } else if self.at_text(0, TokenType::Keyword, "print") || self.at_text(
                0,
                TokenType::Keyword,
                "println",
            ) {
                self.function_call()
            } else if self.at_text(0, TokenType::Keyword, "true") || self.at_text(
                0,
                TokenType::Keyword,
                "false",
            ) || is_builtin_call_text(self.peek().value.as_str()) {
                return self.expression();
            } else {
                return Err(self.error(0, ParseErrorKind::InvalidKeyword));
            }
        } else if self.at(0, TokenType::Identifier) && self.at_text(
            1,
            TokenType::Operator,
            "=",
        ) {
            self.reassignment()
        } else {
            return self.expression();
        };
        match inner {
            Ok(node) => Ok(Node::branch(NodeType::Expression, one(node))),
            Err(e) => Err(e),
        }
    }

    fn assignment(&mut self) -> (r: Result<Node, ParseError>)
        requires
            old(self).wf(),
        ensures
            final(self).moved(old(self)),
            agrees(
                r,
                final(self).position(),
                assignment(old(self).tokens(), old(self).position()),
            ),
            r is Ok ==> final(self).position() > old(self).position(),
        decreases old(self).tokens().len() - old(self).position(), 10int,
    {
        self.skip_type_hint();
        if !self.at(0, TokenType::Identifier) {
            return Err(self.error(0, ParseErrorKind::ExpectedIdentifier));
        }
        if !self.at_text(1, TokenType::Operator, "=") {
            return Err(self.error(1, ParseErrorKind::ExpectedAssignmentOperator));
        }
        let name = Node::leaf(NodeType::Identifier, self.lexeme(0));
        self.next();
        self.next();
        let value = self.expression()?;
        Ok(Node::branch(NodeType::Assignment, two(name, value)))
    }

    fn reassignment(&mut self) -> (r: Result<Node, ParseError>)
        requires
            old(self).wf(),
        ensures
            final(self).moved(old(self)),
            agrees(
                r,
                final(self).position(),
                reassignment(old(self).tokens(), old(self).position()),
            ),
            r is Ok ==> final(self).position() > old(self).position(),
        decreases old(self).tokens().len() - old(self).position(), 10int,
    {
        if self.position >= self.tokens.len() {
            return Err(self.error(0, ParseErrorKind::UnexpectedEnd));
        }
        if !self.at_text(1, TokenType::Operator, "=") {
            return Err(self.error(1, ParseErrorKind::ExpectedAssignmentOperator));
        }
        let name = Node::leaf(NodeType::Identifier, self.lexeme(0));
        self.next();
        self.next();
        let value = self.expression()?;
        Ok(Node::branch(NodeType::Reassignment, two(name, value)))
    }

    fn return_statement(&mut self) -> (r: Result<Node, ParseError>)
        requires
            old(self).wf(),
        ensures
            final(self).moved(old(self)),
            agrees(
                r,
                final(self).position(),
                return_statement(old(self).tokens(), old(self).position()),
            ),
            r is Ok ==> final(self).position() > old(self).position(),
        decreases old(self).tokens().len() - old(self).position(), 10int,
    {
        let value = self.expression()?;
        Ok(Node::branch(NodeType::Return, one(value)))
    }

    fn if_statement(&mut self) -> (r: Result<Node, ParseError>)
        requires
            old(self).wf(),
        ensures
            final(self).moved(old(self)),
            agrees(
                r,
                final(self).position(),
                if_statement(old(self).tokens(), old(self).position()),
            ),
            r is Ok ==> final(self).position() > old(self).position(),
        decreases old(self).tokens().len() - old(self).position(), 10int,
    {
        let condition = self.expression()?;
        let then = self.block()?;
        if !self.at_text(0, TokenType::Keyword, "else") {
            return Ok(Node::branch(NodeType::If, two(condition, then)));
        }
        self.next();
        let otherwise = self.else_statement()?;
        Ok(Node::branch(NodeType::If, three(condition, then, otherwise)))
    }

    /// What follows an `else`: another `if`, or a block.
    fn else_statement(&mut self) -> (r: Result<Node, ParseError>)
        requires
            old(self).wf(),
            old(self).position > 0,
        ensures
            final(self).moved(old(self)),
            agrees(
                r,
                final(self).position(),
                if at_text(
                    old(self).tokens(),
                    old(self).position(),
                    TokenType::Keyword,
                    "if"@,
                ) {
                    if_statement(old(self).tokens(), old(self).position() + 1)
                } else {
                    block(old(self).tokens(), old(self).position())
                },
            ),
            r is Ok ==> final(self).position() > old(self).position(),
        decreases old(self).tokens().len() - old(self).position(), 11int,
    {
        if self.at_text(0, TokenType::Keyword, "if") {
            self.next();
            self.if_statement()
        } else {
            self.block()
        }
    }

    fn block(&mut self) -> (r: Result<Node, ParseError>)
        requires
            old(self).wf(),
        ensures
            final(self).moved(old(self)),
            agrees(r, final(self).position(), block(old(self).tokens(), old(self).position())),
            r is Ok ==> final(self).position() > old(self).position(),
        decreases old(self).tokens().len() - old(self).position(), 3int,
    {
        if !self.at(0, TokenType::LeftBrace) {
            return Err(self.error(0, ParseErrorKind::ExpectedLeftBrace));
        }
        self.next();
        let mut items: Vec<Node> = Vec::new();
        assert(node_views(items@) =~= Seq::empty());
        self.block_items(&mut items)?;
        Ok(Node::branch(NodeType::Block, items))
    }

    /// The statements of a block up to its closing brace.
    fn block_items(&mut self, items: &mut Vec<Node>) -> (r: Result<(), ParseError>)
        requires
            old(self).wf(),
        ensures
            final(self).moved(old(self)),
            agrees_list(
                r,
                final(items)@,
                final(self).position(),
                block_items(old(self).tokens(), old(self).position(), node_views(old(items)@)),
            ),
            r is Ok ==> final(self).position() > old(self).position(),
        decreases old(self).tokens().len() - old(self).position(), 12int,
    {
        if self.at(0, TokenType::RightBrace) {
            self.next();
            return Ok(());
        }
        if self.position >= self.tokens.len() {
            return Err(self.error(0, ParseErrorKind::UnexpectedEnd));
        }
        let item = self.statement()?;
        proof {
            lemma_node_views_push(items@, item);
        }
        items.push(item);
        self.block_items(items)
    }

    fn function_declaration(&mut self) -> (r: Result<Node, ParseError>)
        requires
            old(self).wf(),
        ensures
            final(self).moved(old(self)),
            agrees(
                r,
                final(self).position(),
                function_declaration(old(self).tokens(), old(self).position()),
            ),
            r is Ok ==> final(self).position() > old(self).position(),
        decreases old(self).tokens().len() - old(self).position(), 10int,
    {
        if !self.at(0, TokenType::Identifier) {
            return Err(self.error(0, ParseErrorKind::ExpectedIdentifier));
        }
        if !self.at(1, TokenType::LeftParen) {
            return Err(self.error(1, ParseErrorKind::ExpectedLeftParen));
        }
        let name = Node::leaf(NodeType::Identifier, self.lexeme(0));
        self.next();
        self.next();
        let mut names: Vec<Node> = Vec::new();
        assert(node_views(names@) =~= Seq::empty());
        if !self.at(0, TokenType::RightParen) {
            self.args(&mut names)?;
        }
        if !self.at(0, TokenType::RightParen) {
            return Err(self.error(0, ParseErrorKind::ExpectedRightParen));
        }
        self.next();
        let body = self.block()?;
        let function = Node::branch(
            NodeType::Function,
            two(Node::branch(NodeType::Args, names), body),
        );
        Ok(Node::branch(NodeType::Declaration, two(name, function)))
    }

    fn args(&mut self, names: &mut Vec<Node>) -> (r: Result<(), ParseError>)
        requires
            old(self).wf(),
        ensures
            final(self).moved(old(self)),
            agrees_list(
                r,
                final(names)@,
                final(self).position(),
                args(old(self).tokens(), old(self).position(), node_views(old(names)@)),
            ),
            r is Ok ==> final(self).position() > old(self).position(),
        decreases old(self).tokens().len() - old(self).position(), 10int,
    {
        self.skip_type_hint();
        if !self.at(0, TokenType::Identifier) {
            return Err(self.error(0, ParseErrorKind::ExpectedIdentifier));
        }
        let name = Node::leaf(NodeType::Identifier, self.lexeme(0));
        proof {
            lemma_node_views_push(names@, name);
        }
        names.push(name);
        self.next();
        self.args_tail(names)
    }

    fn args_tail(&mut self, names: &mut Vec<Node>) -> (r: Result<(), ParseError>)
        requires
            old(self).wf(),
        ensures
            final(self).moved(old(self)),
            agrees_list(
                r,
                final(names)@,
                final(self).position(),
                args_tail(old(self).tokens(), old(self).position(), node_views(old(names)@)),
            ),
            r is Ok ==> final(self).position() >= old(self).position(),
        decreases old(self).tokens().len() - old(self).position(), 9int,
    {
        if !self.at(0, TokenType::Comma) {
            return Ok(());
        }
        self.next();
        self.args(names)
    }

    fn function_call(&mut self) -> (r: Result<Node, ParseError>)
        requires
            old(self).wf(),
        ensures
            final(self).moved(old(self)),
            agrees(
                r,
                final(self).position(),
                function_call(old(self).tokens(), old(self).position()),
            ),
            r is Ok ==> final(self).position() > old(self).position(),
        decreases old(self).tokens().len() - old(self).position(), 3int,
    {
        if self.position >= self.tokens.len() {
            return Err(self.error(0, ParseErrorKind::UnexpectedEnd));
        }
        if !self.at(1, TokenType::LeftParen) {
            return Err(self.error(1, ParseErrorKind::ExpectedLeftParen));
        }
        let name = self.lexeme(0);
        self.next();
        self.next();
        let mut arguments: Vec<Node> = Vec::new();
        assert(node_views(arguments@) =~= Seq::empty());
        self.parameters(&mut arguments)?;
        if !self.at(0, TokenType::RightParen) {
            return Err(self.error(0, ParseErrorKind::ExpectedRightParen));
        }
        self.next();
        Ok(
            Node::named(
                NodeType::FunctionCall,
                name,
                one(Node::branch(NodeType::Parameters, arguments)),
            ),
        )
    }

    fn parameters(&mut self, arguments: &mut Vec<Node>) -> (r: Result<(), ParseError>)
        requires
            old(self).wf(),
        ensures
            final(self).moved(old(self)),
            agrees_list(
                r,
                final(arguments)@,
                final(self).position(),
                parameters(
                    old(self).tokens(),
                    old(self).position(),
                    node_views(old(arguments)@),
                ),
            ),
            r is Ok ==> final(self).position() >= old(self).position(),
        decreases old(self).tokens().len() - old(self).position(), 9int,
    {
        if self.at(0, TokenType::RightParen) {
            return Ok(());
        }
        let argument = self.expression()?;
        proof {
            lemma_node_views_push(arguments@, argument);
        }
        arguments.push(argument);
        self.parameters_tail(arguments)
    }

    fn parameters_tail(&mut self, arguments: &mut Vec<Node>) -> (r: Result<(), ParseError>)
        requires
            old(self).wf(),
        ensures
            final(self).moved(old(self)),
            agrees_list(
                r,
                final(arguments)@,
                final(self).position(),
                parameters_tail(
                    old(self).tokens(),
                    old(self).position(),
                    node_views(old(arguments)@),
                ),
            ),
            r is Ok ==> final(self).position() >= old(self).position(),
        decreases old(self).tokens().len() - old(self).position(), 8int,
    {
        if !self.at(0, TokenType::Comma) {
            return Ok(());
        }
        self.next();
        self.parameters(arguments)
    }

    /// `Expression → Term (ExpressionOperator Term)*`
    pub fn expression(&mut self) -> (r: Result<Node, ParseError>)
        requires
            old(self).wf(),
        ensures
            final(self).moved(old(self)),
            agrees(
                r,
                final(self).position(),
                expression(old(self).tokens(), old(self).position()),
            ),
            r is Ok ==> final(self).position() > old(self).position(),
        decreases old(self).tokens().len() - old(self).position(), 7int,
    {
        let first = self.term()?;
        let tree = self.expression_tail(first)?;
        Ok(Node::branch(NodeType::Expression, one(tree)))
    }

    /// The operators and terms that follow `left`: each operator takes the tree
    /// built so far as its left operand, so that operators join from the left.
    pub fn expression_tail(&mut self, left: Node) -> (r: Result<Node, ParseError>)
        requires
            old(self).wf(),
        ensures
            final(self).moved(old(self)),
            agrees(
                r,
                final(self).position(),
                expression_tail(old(self).tokens(), old(self).position(), left@),
            ),
            joins_from_the_left(old(self).tokens(), old(self).position(), left@),
            r is Ok ==> final(self).position() >= old(self).position(),
        decreases old(self).tokens().len() - old(self).position(), 6int,
    {
        proof {
            lemma_tail_joins_from_the_left(self.tokens(), self.position(), left@);
        }
        if !(self.at(0, TokenType::Operator) && is_expression_operator_text(
            self.peek().value.as_str(),
        )) {
            return Ok(left);
        }
        let operator = self.lexeme(0);
        self.next();
        let right = self.term()?;
        self.expression_tail(Node::named(NodeType::Operation, operator, two(left, right)))
    }

    /// `Term → Factor (TermOperator Factor)*`
    pub fn term(&mut self) -> (r: Result<Node, ParseError>)
        requires
            old(self).wf(),
        ensures
            final(self).moved(old(self)),
            agrees(r, final(self).position(), term(old(self).tokens(), old(self).position())),
            r is Ok ==> final(self).position() > old(self).position(),
        decreases old(self).tokens().len() - old(self).position(), 6int,
    {
        let first = self.factor()?;
        let tree = self.term_tail(first)?;
        Ok(Node::branch(NodeType::Term, one(tree)))
    }

    /// The operators and factors that follow `left`: each operator takes the
    /// tree built so far as its left operand.
    pub fn term_tail(&mut self, left: Node) -> (r: Result<Node, ParseError>)
        requires
            old(self).wf(),
        ensures
            final(self).moved(old(self)),
            agrees(
                r,
                final(self).position(),
                term_tail(old(self).tokens(), old(self).position(), left@),
            ),
            r is Ok ==> final(self).position() >= old(self).position(),
        decreases old(self).tokens().len() - old(self).position(), 5int,
    {
        if !(self.at(0, TokenType::Operator) && is_term_operator_text(
            self.peek().value.as_str(),
        )) {
            return Ok(left);
        }
        let operator = self.lexeme(0);
        self.next();
        let right = self.factor()?;
        self.term_tail(Node::named(NodeType::Operation, operator, two(left, right)))
    }

    /// A factor: a literal, a name, a call, an index, a list, or an expression in
    /// parentheses.
    pub fn factor(&mut self) -> (r: Result<Node, ParseError>)
        requires
            old(self).wf(),
        ensures
            final(self).moved(old(self)),
            agrees(r, final(self).position(), factor(old(self).tokens(), old(self).position())),
            r is Ok ==> final(self).position() > old(self).position(),
        decreases old(self).tokens().len() - old(self).position(), 5int,
    {
        if self.position >= self.tokens.len() {
            return Err(self.error(0, ParseErrorKind::UnexpectedEnd));
        }
        let inner = match self.peek().token_type {
            TokenType::LeftParen => {
                self.next();
                let inner = self.expression()?;
                if !self.at(0, TokenType::RightParen) {
                    return Err(self.error(0, ParseErrorKind::ExpectedRightParen));
                }
                self.next();
                inner
            },
            TokenType::Number | TokenType::String => {
                let literal = Node::leaf(NodeType::Literal, self.lexeme(0));
                self.next();
                literal
            },
            TokenType::Identifier => {
                if self.at(1, TokenType::LeftParen) {
                    self.call_or_index()?
                } else if self.at(1, TokenType::LeftBracket) {
                    let name = Node::leaf(NodeType::Identifier, self.lexeme(0));
                    self.next();
                    self.next();
                    self.index(name)?
                } else {
                    let name = Node::leaf(NodeType::Identifier, self.lexeme(0));
                    self.next();
                    name
                }
            },
            TokenType::Keyword => {
                if self.at_text(0, TokenType::Keyword, "true") || self.at_text(
                    0,
                    TokenType::Keyword,
                    "false",
                ) {
                    let literal = Node::leaf(NodeType::Literal, self.lexeme(0));
                    self.next();
                    literal
                } else if is_builtin_call_text(self.peek().value.as_str()) {
                    self.call_or_index()?
                } else {
                    return Err(self.error(0, ParseErrorKind::InvalidKeyword));
                }
            },
            TokenType::LeftBracket => {
                self.next();
                self.list()?
            },
            _ => {
                return Err(self.error(0, ParseErrorKind::InvalidFactor));
            },
        };
        Ok(Node::branch(NodeType::Factor, one(inner)))
    }

    /// A call, and the index into its result if a `[` follows.
    fn call_or_index(&mut self) -> (r: Result<Node, ParseError>)
        requires
            old(self).wf(),
        ensures
            final(self).moved(old(self)),
            agrees(
                r,
                final(self).position(),
                call_or_index(old(self).tokens(), old(self).position()),
            ),
            r is Ok ==> final(self).position() > old(self).position(),
        decreases old(self).tokens().len() - old(self).position(), 4int,
    {
        let call = self.function_call()?;
        if !self.at(0, TokenType::LeftBracket) {
            return Ok(call);
        }
        self.next();
        self.index(call)
    }

    /// The position in what is indexed and the closing bracket, from after
    /// the `[`.
    fn index(&mut self, indexed: Node) -> (r: Result<Node, ParseError>)
        requires
            old(self).wf(),
        ensures
            final(self).moved(old(self)),
            agrees(
                r,
                final(self).position(),
                index(old(self).tokens(), old(self).position(), indexed@),
            ),
            r is Ok ==> final(self).position() > old(self).position(),
        decreases old(self).tokens().len() - old(self).position(), 8int,
    {
        let position = self.expression()?;
        if !self.at(0, TokenType::RightBracket) {
            return Err(self.error(0, ParseErrorKind::ExpectedRightBracket));
        }
        self.next();
        Ok(Node::branch(NodeType::Index, two(indexed, position)))
    }

    fn list(&mut self) -> (r: Result<Node, ParseError>)
        requires
            old(self).wf(),
        ensures
            final(self).moved(old(self)),
            agrees(r, final(self).position(), list(old(self).tokens(), old(self).position())),
            r is Ok ==> final(self).position() > old(self).position(),
        decreases old(self).tokens().len() - old(self).position(), 10int,
    {
        let mut items: Vec<Node> = Vec::new();
        assert(node_views(items@) =~= Seq::empty());
        if self.at(0, TokenType::RightBracket) {
            self.next();
            return Ok(Node::branch(NodeType::List, items));
        }
        let first = self.expression()?;
        proof {
            lemma_node_views_push(items@, first);
            assert(Seq::<NodeView>::empty().push(first@) =~= seq![first@]);
        }
        items.push(first);
        self.list_tail(&mut items)?;
        Ok(Node::branch(NodeType::List, items))
    }

    fn list_tail(&mut self, items: &mut Vec<Node>) -> (r: Result<(), ParseError>)
        requires
            old(self).wf(),
        ensures
            final(self).moved(old(self)),
            agrees_list(
                r,
                final(items)@,
                final(self).position(),
                list_tail(old(self).tokens(), old(self).position(), node_views(old(items)@)),
            ),
            r is Ok ==> final(self).position() > old(self).position(),
        decreases old(self).tokens().len() - old(self).position(), 9int,
    {
        if self.at(0, TokenType::RightBracket) {
            self.next();
            return Ok(());
        }
        if !self.at(0, TokenType::Comma) {
            return Err(self.error(0, ParseErrorKind::ExpectedComma));
        }
        self.next();
        let item = self.expression()?;
        proof {
            lemma_node_views_push(items@, item);
        }
        items.push(item);
        self.list_tail(items)
    }
}

} // verus!
