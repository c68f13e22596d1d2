use crate::node::node::{NodeType, NodeView};
use crate::token::token::{TokenType, TokenView};
use vstd::prelude::*;

verus! {

/// What the parser was looking for when it failed.
#[derive(Debug, PartialEq, Eq, Structural, Clone, Copy)]
pub enum ParseErrorKind {
    InvalidKeyword,
    InvalidFactor,
    ExpectedIdentifier,
    ExpectedAssignmentOperator,
    ExpectedLeftParen,
    ExpectedRightParen,
    ExpectedLeftBrace,
    ExpectedRightBracket,
    ExpectedComma,
    /// The tokens ended in the middle of a construct.
    UnexpectedEnd,
}

/// A failure of the parser: what it was looking for, and the line and text of
/// the token it found instead.
pub struct ParseErrorView {
    pub kind: ParseErrorKind,
    pub line: i32,
    pub value: Seq<char>,
}

impl ParseErrorKind {
    /// What the parser says it was looking for.
    pub open spec fn text(self) -> Seq<char> {
        match self {
            ParseErrorKind::InvalidKeyword => "Invalid keyword"@,
            ParseErrorKind::InvalidFactor => "Invalid factor"@,
            ParseErrorKind::ExpectedIdentifier => "Expected identifier"@,
            ParseErrorKind::ExpectedAssignmentOperator => "Expected assignment operator"@,
            ParseErrorKind::ExpectedLeftParen => "Expected left parenthesis"@,
            ParseErrorKind::ExpectedRightParen => "Expected right parenthesis"@,
            ParseErrorKind::ExpectedLeftBrace => "Expected left brace"@,
            ParseErrorKind::ExpectedRightBracket => "Expected right bracket"@,
            ParseErrorKind::ExpectedComma => "Expected comma"@,
            ParseErrorKind::UnexpectedEnd => "Unexpected end of input"@,
        }
    }

    /// What the parser says it was looking for.
    pub fn describe(&self) -> (s: &'static str)
        ensures
            s@ == self.text(),
    {
        match self {
            ParseErrorKind::InvalidKeyword => "Invalid keyword",
            ParseErrorKind::InvalidFactor => "Invalid factor",
            ParseErrorKind::ExpectedIdentifier => "Expected identifier",
            ParseErrorKind::ExpectedAssignmentOperator => "Expected assignment operator",
            ParseErrorKind::ExpectedLeftParen => "Expected left parenthesis",
            ParseErrorKind::ExpectedRightParen => "Expected right parenthesis",
            ParseErrorKind::ExpectedLeftBrace => "Expected left brace",
            ParseErrorKind::ExpectedRightBracket => "Expected right bracket",
            ParseErrorKind::ExpectedComma => "Expected comma",
            ParseErrorKind::UnexpectedEnd => "Unexpected end of input",
        }
    }
}

impl ParseErrorView {
    /// The text of the failure: the line and the text of the token, then what
    /// the parser was looking for.
    pub open spec fn text(self) -> Seq<char> {
        "Error found near line "@ + crate::interpreter::number::number_text(self.line as int)
            + " with value '"@ + self.value + "': "@ + self.kind.text()
    }
}

/// The result of one grammar rule: the tree and the position after it.
pub type Parsed = Result<(NodeView, int), ParseErrorView>;

/// The result of a rule that gathers a list: the trees and the position after
/// them.
pub type ParsedList = Result<(Seq<NodeView>, int), ParseErrorView>;

/// A node with a payload and no children.
pub open spec fn leaf(kind: NodeType, text: Seq<char>) -> NodeView {
    NodeView { kind, value: Some(text), children: Seq::empty() }
}

/// A node with children and no payload.
pub open spec fn branch(kind: NodeType, children: Seq<NodeView>) -> NodeView {
    NodeView { kind, value: None, children }
}

/// A node with a payload and children.
pub open spec fn named(kind: NodeType, text: Seq<char>, children: Seq<NodeView>) -> NodeView {
    NodeView { kind, value: Some(text), children }
}

/// Whether the token at `p` exists and has the given kind.
pub open spec fn at(ts: Seq<TokenView>, p: int, kind: TokenType) -> bool {
    0 <= p < ts.len() && ts[p].kind == kind
}

/// Whether the token at `p` exists and has the given kind and text.
pub open spec fn at_text(ts: Seq<TokenView>, p: int, kind: TokenType, text: Seq<char>) -> bool {
    at(ts, p, kind) && ts[p].lexeme == text
}

/// The failure reported at position `p`: it names the token there, or says
/// that the tokens have ended.
pub open spec fn error_at(ts: Seq<TokenView>, p: int, kind: ParseErrorKind) -> ParseErrorView {
    if 0 <= p < ts.len() {
        ParseErrorView { kind, line: ts[p].line, value: ts[p].lexeme }
    } else if ts.len() > 0 {
        ParseErrorView {
            kind: ParseErrorKind::UnexpectedEnd,
            line: ts.last().line,
            value: Seq::empty(),
        }
    } else {
        ParseErrorView { kind: ParseErrorKind::UnexpectedEnd, line: 1, value: Seq::empty() }
    }
}

/// A result that ends after position `p`. Every rule consumes a token, so this
/// changes no result of a rule: see `lemma_rules_advance`.
pub open spec fn forward(r: Parsed, ts: Seq<TokenView>, p: int) -> Parsed {
    match r {
        Ok((_, q)) => if p < q <= ts.len() {
            r
        } else {
            Err(error_at(ts, ts.len() as int, ParseErrorKind::UnexpectedEnd))
        },
        Err(_) => r,
    }
}

/// The type hints that may stand before a name.
pub open spec fn is_type_hint(text: Seq<char>) -> bool {
    ||| text == "bool"@
    ||| text == "int"@
    ||| text == "str"@
    ||| text == "list"@
    ||| text == "function"@
}

/// The built-in functions that may be called inside an expression.
pub open spec fn is_builtin_call(text: Seq<char>) -> bool {
    ||| text == "is_bool"@
    ||| text == "is_number"@
    ||| text == "is_string"@
    ||| text == "is_list"@
    ||| text == "type"@
    ||| text == "head"@
    ||| text == "tail"@
    ||| text == "len"@
    ||| text == "input"@
    ||| text == "is_function"@
}

/// The operators of an expression: sums, differences and comparisons.
pub open spec fn is_expression_operator(text: Seq<char>) -> bool {
    ||| text == "+"@
    ||| text == "-"@
    ||| text == "=="@
    ||| text == "!="@
    ||| text == ">"@
    ||| text == ">="@
    ||| text == "<"@
    ||| text == "<="@
}

/// The operators of a term: products, quotients and remainders.
pub open spec fn is_term_operator(text: Seq<char>) -> bool {
    ||| text == "*"@
    ||| text == "/"@
    ||| text == "%"@
}

/// The position after the type hint at `p`, if there is one.
pub open spec fn skip_type_hint(ts: Seq<TokenView>, p: int) -> int {
    if at(ts, p, TokenType::Keyword) && is_type_hint(ts[p].lexeme) {
        p + 1
    } else {
        p
    }
}

/// A statement is an `Expression` node around what it is.
pub open spec fn wrapped(r: Parsed) -> Parsed {
    match r {
        Ok((node, q)) => Ok((branch(NodeType::Expression, seq![node]), q)),
        Err(e) => Err(e),
    }
}

/// `Statement → Let | If | Funk | Return | Print | Reassignment | Expression`
pub open spec fn statement(ts: Seq<TokenView>, p: int) -> Parsed
    decreases ts.len() - p, 11int,
{
    if !(0 <= p < ts.len()) {
        Err(error_at(ts, p, ParseErrorKind::UnexpectedEnd))
    } else if ts[p].kind == TokenType::Keyword {
        let word = ts[p].lexeme;
        if word == "let"@ {
            wrapped(assignment(ts, p + 1))
        } else if word == "if"@ {
            wrapped(if_statement(ts, p + 1))
        } else if word == "funk"@ {
            wrapped(function_declaration(ts, p + 1))
        } else if word == "return"@ {
            wrapped(return_statement(ts, p + 1))
        } else if word == "print"@ || word == "println"@ {
            wrapped(function_call(ts, p))
        } else if word == "true"@ || word == "false"@ || is_builtin_call(word) {
            expression(ts, p)
        } else {
            Err(error_at(ts, p, ParseErrorKind::InvalidKeyword))
        }
    } else if ts[p].kind == TokenType::Identifier && at_text(
        ts,
        p + 1,
        TokenType::Operator,
        "="@,
    ) {
        wrapped(reassignment(ts, p))
    } else {
        expression(ts, p)
    }
}

/// `Let → 'let' TypeHint? Identifier '=' Expression`, from after the `let`.
pub open spec fn assignment(ts: Seq<TokenView>, p: int) -> Parsed
    decreases ts.len() - p, 10int,
{
    let name = skip_type_hint(ts, p);
    if !(0 <= p) {
        Err(error_at(ts, p, ParseErrorKind::UnexpectedEnd))
    } else if !at(ts, name, TokenType::Identifier) {
        Err(error_at(ts, name, ParseErrorKind::ExpectedIdentifier))
    } else if !at_text(ts, name + 1, TokenType::Operator, "="@) {
        Err(error_at(ts, name + 1, ParseErrorKind::ExpectedAssignmentOperator))
    } else {
        match expression(ts, name + 2) {
            Ok((value, q)) => Ok(
                (
                    branch(
                        NodeType::Assignment,
                        seq![leaf(NodeType::Identifier, ts[name].lexeme), value],
                    ),
                    q,
                ),
            ),
            Err(e) => Err(e),
        }
    }
}

/// `Reassignment → Identifier '=' Expression`, at a name that `=` follows.
pub open spec fn reassignment(ts: Seq<TokenView>, p: int) -> Parsed
    decreases ts.len() - p, 10int,
{
    if !(0 <= p < ts.len()) {
        Err(error_at(ts, p, ParseErrorKind::UnexpectedEnd))
    } else if !at_text(ts, p + 1, TokenType::Operator, "="@) {
        Err(error_at(ts, p + 1, ParseErrorKind::ExpectedAssignmentOperator))
    } else {
        match expression(ts, p + 2) {
            Ok((value, q)) => Ok(
                (
                    branch(
                        NodeType::Reassignment,
                        seq![leaf(NodeType::Identifier, ts[p].lexeme), value],
                    ),
                    q,
                ),
            ),
            Err(e) => Err(e),
        }
    }
}

/// `Return → 'return' Expression`, from after the `return`.
pub open spec fn return_statement(ts: Seq<TokenView>, p: int) -> Parsed
    decreases ts.len() - p, 10int,
{
    match expression(ts, p) {
        Ok((value, q)) => Ok((branch(NodeType::Return, seq![value]), q)),
        Err(e) => Err(e),
    }
}

/// `If → 'if' Expression Block ('else' (Block | If))?`, from after the `if`.
pub open spec fn if_statement(ts: Seq<TokenView>, p: int) -> Parsed
    decreases ts.len() - p, 10int,
{
    match forward(expression(ts, p), ts, p) {
        Ok((condition, q)) => match forward(block(ts, q), ts, q) {
            Ok((then, r)) => {
                if !at_text(ts, r, TokenType::Keyword, "else"@) {
                    Ok((branch(NodeType::If, seq![condition, then]), r))
                } else if at_text(ts, r + 1, TokenType::Keyword, "if"@) {
                    match if_statement(ts, r + 2) {
                        Ok((otherwise, s)) => Ok(
                            (branch(NodeType::If, seq![condition, then, otherwise]), s),
                        ),
                        Err(e) => Err(e),
                    }
                } else {
                    match block(ts, r + 1) {
                        Ok((otherwise, s)) => Ok(
                            (branch(NodeType::If, seq![condition, then, otherwise]), s),
                        ),
                        Err(e) => Err(e),
                    }
                }
            },
            Err(e) => Err(e),
        },
        Err(e) => Err(e),
    }
}

/// `Block → '{' Statement* '}'`
pub open spec fn block(ts: Seq<TokenView>, p: int) -> Parsed
    decreases ts.len() - p, 3int,
{
    if !at(ts, p, TokenType::LeftBrace) {
        Err(error_at(ts, p, ParseErrorKind::ExpectedLeftBrace))
    } else {
        match block_items(ts, p + 1, Seq::empty()) {
            Ok((items, q)) => Ok((branch(NodeType::Block, items), q)),
            Err(e) => Err(e),
        }
    }
}

/// The statements of a block up to its closing brace, after those in `done`.
pub open spec fn block_items(ts: Seq<TokenView>, p: int, done: Seq<NodeView>) -> ParsedList
    decreases ts.len() - p, 12int,
{
    if at(ts, p, TokenType::RightBrace) {
        Ok((done, p + 1))
    } else if !(0 <= p < ts.len()) {
        Err(error_at(ts, p, ParseErrorKind::UnexpectedEnd))
    } else {
        match forward(statement(ts, p), ts, p) {
            Ok((item, q)) => block_items(ts, q, done.push(item)),
            Err(e) => Err(e),
        }
    }
}

/// `Funk → 'funk' Identifier '(' Args? ')' Block`, from after the `funk`.
pub open spec fn function_declaration(ts: Seq<TokenView>, p: int) -> Parsed
    decreases ts.len() - p, 10int,
{
    if !at(ts, p, TokenType::Identifier) {
        Err(error_at(ts, p, ParseErrorKind::ExpectedIdentifier))
    } else if !at(ts, p + 1, TokenType::LeftParen) {
        Err(error_at(ts, p + 1, ParseErrorKind::ExpectedLeftParen))
    } else {
        let listed = if at(ts, p + 2, TokenType::RightParen) {
            Ok((Seq::empty(), p + 2))
        } else {
            args(ts, p + 2, Seq::empty())
        };
        match listed {
            Ok((names, q)) => {
                if !at(ts, q, TokenType::RightParen) {
                    Err(error_at(ts, q, ParseErrorKind::ExpectedRightParen))
                } else if !(p < q) {
                    Err(error_at(ts, ts.len() as int, ParseErrorKind::UnexpectedEnd))
                } else {
                    match block(ts, q + 1) {
                        Ok((body, r)) => Ok(
                            (
                                branch(
                                    NodeType::Declaration,
                                    seq![
                                        leaf(NodeType::Identifier, ts[p].lexeme),
                                        branch(
                                            NodeType::Function,
                                            seq![branch(NodeType::Args, names), body],
                                        ),
                                    ],
                                ),
                                r,
                            ),
                        ),
                        Err(e) => Err(e),
                    }
                }
            },
            Err(e) => Err(e),
        }
    }
}

/// `Args → TypeHint? Identifier (',' Args)?`, after the names in `done`.
pub open spec fn args(ts: Seq<TokenView>, p: int, done: Seq<NodeView>) -> ParsedList
    decreases ts.len() - p, 10int,
{
    let name = skip_type_hint(ts, p);
    if !(0 <= p) {
        Err(error_at(ts, p, ParseErrorKind::UnexpectedEnd))
    } else if !at(ts, name, TokenType::Identifier) {
        Err(error_at(ts, name, ParseErrorKind::ExpectedIdentifier))
    } else {
        args_tail(ts, name + 1, done.push(leaf(NodeType::Identifier, ts[name].lexeme)))
    }
}

/// The rest of the parameter names: a comma and more names, or nothing.
pub open spec fn args_tail(ts: Seq<TokenView>, p: int, done: Seq<NodeView>) -> ParsedList
    decreases ts.len() - p, 9int,
{
    if at(ts, p, TokenType::Comma) {
        args(ts, p + 1, done)
    } else {
        Ok((done, p))
    }
}

/// `Call → Name '(' Params? ')'`, at the name.
pub open spec fn function_call(ts: Seq<TokenView>, p: int) -> Parsed
    decreases ts.len() - p, 3int,
{
    if !(0 <= p < ts.len()) {
        Err(error_at(ts, p, ParseErrorKind::UnexpectedEnd))
    } else if !at(ts, p + 1, TokenType::LeftParen) {
        Err(error_at(ts, p + 1, ParseErrorKind::ExpectedLeftParen))
    } else {
        match parameters(ts, p + 2, Seq::empty()) {
            Ok((arguments, q)) => {
                if !at(ts, q, TokenType::RightParen) {
                    Err(error_at(ts, q, ParseErrorKind::ExpectedRightParen))
                } else {
                    Ok(
                        (
                            named(
                                NodeType::FunctionCall,
                                ts[p].lexeme,
                                seq![branch(NodeType::Parameters, arguments)],
                            ),
                            q + 1,
                        ),
                    )
                }
            },
            Err(e) => Err(e),
        }
    }
}

/// `Params → Expression (',' Params)?`, or nothing before a `)`; after the
/// arguments in `done`.
pub open spec fn parameters(ts: Seq<TokenView>, p: int, done: Seq<NodeView>) -> ParsedList
    decreases ts.len() - p, 9int,
{
    if at(ts, p, TokenType::RightParen) {
        Ok((done, p))
    } else {
        match forward(expression(ts, p), ts, p) {
            Ok((argument, q)) => parameters_tail(ts, q, done.push(argument)),
            Err(e) => Err(e),
        }
    }
}

/// The rest of the arguments: a comma and more arguments, or nothing.
pub open spec fn parameters_tail(ts: Seq<TokenView>, p: int, done: Seq<NodeView>) -> ParsedList
    decreases ts.len() - p, 8int,
{
    if at(ts, p, TokenType::Comma) {
        parameters(ts, p + 1, done)
    } else {
        Ok((done, p))
    }
}

/// `Expression → Term (ExpressionOperator Term)*`
pub open spec fn expression(ts: Seq<TokenView>, p: int) -> Parsed
    decreases ts.len() - p, 7int,
{
    match forward(term(ts, p), ts, p) {
        Ok((first, q)) => match expression_tail(ts, q, first) {
            Ok((tree, r)) => Ok((branch(NodeType::Expression, seq![tree]), r)),
            Err(e) => Err(e),
        },
        Err(e) => Err(e),
    }
}

/// The operators and terms that follow `left`, joined to it from the left.
pub open spec fn expression_tail(ts: Seq<TokenView>, p: int, left: NodeView) -> Parsed
    decreases ts.len() - p, 6int,
{
    if at(ts, p, TokenType::Operator) && is_expression_operator(ts[p].lexeme) {
        match forward(term(ts, p + 1), ts, p + 1) {
            Ok((right, q)) => expression_tail(
                ts,
                q,
                named(NodeType::Operation, ts[p].lexeme, seq![left, right]),
            ),
            Err(e) => Err(e),
        }
    } else {
        Ok((left, p))
    }
}

/// `Term → Factor (TermOperator Factor)*`
pub open spec fn term(ts: Seq<TokenView>, p: int) -> Parsed
    decreases ts.len() - p, 6int,
{
    match forward(factor(ts, p), ts, p) {
        Ok((first, q)) => match term_tail(ts, q, first) {
            Ok((tree, r)) => Ok((branch(NodeType::Term, seq![tree]), r)),
            Err(e) => Err(e),
        },
        Err(e) => Err(e),
    }
}

/// The operators and factors that follow `left`, joined to it from the left.
pub open spec fn term_tail(ts: Seq<TokenView>, p: int, left: NodeView) -> Parsed
    decreases ts.len() - p, 5int,
{
    if at(ts, p, TokenType::Operator) && is_term_operator(ts[p].lexeme) {
        match forward(factor(ts, p + 1), ts, p + 1) {
            Ok((right, q)) => term_tail(
                ts,
                q,
                named(NodeType::Operation, ts[p].lexeme, seq![left, right]),
            ),
            Err(e) => Err(e),
        }
    } else {
        Ok((left, p))
    }
}

/// A `Factor` node around what it is.
pub open spec fn factored(r: Parsed) -> Parsed {
    match r {
        Ok((node, q)) => Ok((branch(NodeType::Factor, seq![node]), q)),
        Err(e) => Err(e),
    }
}

/// `Factor → '(' Expression ')' | Number | String | 'true' | 'false'
///          | Identifier | Call Index? | Identifier Index | '[' List`
pub open spec fn factor(ts: Seq<TokenView>, p: int) -> Parsed
    decreases ts.len() - p, 5int,
{
    if !(0 <= p < ts.len()) {
        Err(error_at(ts, p, ParseErrorKind::UnexpectedEnd))
    } else {
        match ts[p].kind {
            TokenType::LeftParen => match expression(ts, p + 1) {
                Ok((inner, q)) => {
                    if at(ts, q, TokenType::RightParen) {
                        Ok((branch(NodeType::Factor, seq![inner]), q + 1))
                    } else {
                        Err(error_at(ts, q, ParseErrorKind::ExpectedRightParen))
                    }
                },
                Err(e) => Err(e),
            },
            TokenType::Number | TokenType::String => Ok(
                (branch(NodeType::Factor, seq![leaf(NodeType::Literal, ts[p].lexeme)]), p + 1),
            ),
            TokenType::Identifier => {
                if at(ts, p + 1, TokenType::LeftParen) {
                    factored(call_or_index(ts, p))
                } else if at(ts, p + 1, TokenType::LeftBracket) {
                    factored(index(ts, p + 2, leaf(NodeType::Identifier, ts[p].lexeme)))
                } else {
                    Ok(
                        (
                            branch(
                                NodeType::Factor,
                                seq![leaf(NodeType::Identifier, ts[p].lexeme)],
                            ),
                            p + 1,
                        ),
                    )
                }
            },
            TokenType::Keyword => {
                if ts[p].lexeme == "true"@ || ts[p].lexeme == "false"@ {
                    Ok(
                        (
                            branch(NodeType::Factor, seq![leaf(NodeType::Literal, ts[p].lexeme)]),
                            p + 1,
                        ),
                    )
                } else if is_builtin_call(ts[p].lexeme) {
                    factored(call_or_index(ts, p))
                } else {
                    Err(error_at(ts, p, ParseErrorKind::InvalidKeyword))
                }
            },
            TokenType::LeftBracket => factored(list(ts, p + 1)),
            _ => Err(error_at(ts, p, ParseErrorKind::InvalidFactor)),
        }
    }
}

/// A call, and the index into its result if a `[` follows.
pub open spec fn call_or_index(ts: Seq<TokenView>, p: int) -> Parsed
    decreases ts.len() - p, 4int,
{
    match forward(function_call(ts, p), ts, p) {
        Ok((call, q)) => {
            if at(ts, q, TokenType::LeftBracket) {
                index(ts, q + 1, call)
            } else {
                Ok((call, q))
            }
        },
        Err(e) => Err(e),
    }
}

/// `Index → Indexed '[' Expression ']'`, from after the `[`: the position in
/// what is indexed, and the closing bracket.
pub open spec fn index(ts: Seq<TokenView>, p: int, indexed: NodeView) -> Parsed
    decreases ts.len() - p, 8int,
{
    match expression(ts, p) {
        Ok((position, q)) => {
            if at(ts, q, TokenType::RightBracket) {
                Ok((branch(NodeType::Index, seq![indexed, position]), q + 1))
            } else {
                Err(error_at(ts, q, ParseErrorKind::ExpectedRightBracket))
            }
        },
        Err(e) => Err(e),
    }
}

/// `List → '[' (Expression (',' Expression)*)? ']'`, from after the `[`.
pub open spec fn list(ts: Seq<TokenView>, p: int) -> Parsed
    decreases ts.len() - p, 10int,
{
    if at(ts, p, TokenType::RightBracket) {
        Ok((branch(NodeType::List, Seq::empty()), p + 1))
    } else {
        match forward(expression(ts, p), ts, p) {
            Ok((first, q)) => match list_tail(ts, q, seq![first]) {
                Ok((items, r)) => Ok((branch(NodeType::List, items), r)),
                Err(e) => Err(e),
            },
            Err(e) => Err(e),
        }
    }
}

/// The rest of a list: its closing bracket, or a comma and one more element.
pub open spec fn list_tail(ts: Seq<TokenView>, p: int, done: Seq<NodeView>) -> ParsedList
    decreases ts.len() - p, 9int,
{
    if at(ts, p, TokenType::RightBracket) {
        Ok((done, p + 1))
    } else if !at(ts, p, TokenType::Comma) {
        Err(error_at(ts, p, ParseErrorKind::ExpectedComma))
    } else {
        match forward(expression(ts, p + 1), ts, p + 1) {
            Ok((item, q)) => list_tail(ts, q, done.push(item)),
            Err(e) => Err(e),
        }
    }
}

/// The statements of a program from position `p` on, after those in `done`.
pub open spec fn program_items(ts: Seq<TokenView>, p: int, done: Seq<NodeView>) -> Result<
    Seq<NodeView>,
    ParseErrorView,
>
    decreases ts.len() - p, 12int,
{
    if !(0 <= p < ts.len()) {
        Ok(done)
    } else {
        match forward(statement(ts, p), ts, p) {
            Ok((item, q)) => program_items(ts, q, done.push(item)),
            Err(e) => Err(e),
        }
    }
}

/// `Program → Statement*`: the tree of a sequence of tokens, or why it has none.
pub open spec fn program(ts: Seq<TokenView>) -> Result<NodeView, ParseErrorView> {
    match program_items(ts, 0, Seq::empty()) {
        Ok(items) => Ok(branch(NodeType::Program, items)),
        Err(e) => Err(e),
    }
}

} // verus!
