use crate::interpreter::operators::is_binary_operator;
use crate::node::node::{NodeType, NodeView};
use crate::node::shape::{all_have_values, children_have_values, has_value, well_formed};
use crate::parser::grammar::{
    args, args_tail, assignment, at, at_text, block, block_items, branch, call_or_index,
    expression, expression_tail, factor, forward, function_call, function_declaration,
    if_statement, index, is_builtin_call, is_expression_operator, is_term_operator, leaf, list,
    list_tail, named, parameters, parameters_tail, program, program_items, reassignment,
    return_statement, skip_type_hint, statement, term, term_tail, Parsed, ParsedList,
};
use crate::token::token::{TokenType, TokenView};
use vstd::prelude::*;

verus! {

/// Whether a rule that succeeded from position `p` has consumed a token and
/// given a well-formed tree that has a value.
pub open spec fn sound(r: Parsed, ts: Seq<TokenView>, p: int) -> bool {
    r matches Ok((tree, q)) ==> p < q <= ts.len() && well_formed(tree) && has_value(tree.kind)
}

/// Whether a rule that gathers a list and succeeded from position `p` has not
/// gone back and has given well-formed trees that have values.
pub open spec fn sound_list(r: ParsedList, ts: Seq<TokenView>, p: int) -> bool {
    r matches Ok((trees, q)) ==> p <= q <= ts.len() && all_have_values(trees)
}

/// Whether every tree of a sequence is a name.
pub open spec fn all_names(nodes: Seq<NodeView>) -> bool {
    forall|i: int|
        0 <= i < nodes.len() ==> well_formed(#[trigger] nodes[i]) && nodes[i].kind
            == NodeType::Identifier
}

/// One more well-formed tree with a value leaves a sequence of them so.
proof fn lemma_push(done: Seq<NodeView>, tree: NodeView)
    requires
        all_have_values(done),
        well_formed(tree),
        has_value(tree.kind),
    ensures
        all_have_values(done.push(tree)),
{
    assert forall|i: int| 0 <= i < done.push(tree).len() implies well_formed(
        #[trigger] done.push(tree)[i],
    ) && has_value(done.push(tree)[i].kind) by {
        if i < done.len() {
            assert(done.push(tree)[i] == done[i]);
        }
    }
}

/// A node over well-formed trees that have values is well formed where its
/// kind asks no more of its children.
proof fn lemma_over_values(node: NodeView)
    requires
        all_have_values(node.children),
        node.value is None,
        node.kind == NodeType::Block || node.kind == NodeType::List || node.kind
            == NodeType::Parameters || node.kind == NodeType::Program,
    ensures
        well_formed(node),
{
    assert forall|i: int| 0 <= i < node.children.len() implies has_value(
        (#[trigger] node.children[i]).kind,
    ) by {}
}

/// A wrapper around a well-formed tree that has a value is well formed.
proof fn lemma_around(kind: NodeType, tree: NodeView)
    requires
        well_formed(tree),
        has_value(tree.kind),
        kind == NodeType::Expression || kind == NodeType::Term || kind == NodeType::Factor || kind
            == NodeType::Return,
    ensures
        well_formed(branch(kind, seq![tree])),
        has_value(kind),
{
    let node = branch(kind, seq![tree]);
    assert forall|i: int| 0 <= i < node.children.len() implies well_formed(
        #[trigger] node.children[i],
    ) && has_value(node.children[i].kind) by {}
}

/// A wrapper around the tree of a sound result is well formed.
proof fn lemma_wrapped(kind: NodeType, r: Parsed, ts: Seq<TokenView>, p: int)
    requires
        sound(r, ts, p),
        kind == NodeType::Expression || kind == NodeType::Term || kind == NodeType::Factor || kind
            == NodeType::Return,
    ensures
        r matches Ok((tree, _)) ==> well_formed(branch(kind, seq![tree])),
{
    match r {
        Ok((tree, _)) => {
            lemma_around(kind, tree);
        },
        Err(_) => {},
    }
}

/// A node over two well-formed children is well formed where it has the
/// payload and the children of its kind.
proof fn lemma_pair(node: NodeView, a: NodeView, b: NodeView)
    requires
        node.children == seq![a, b],
        well_formed(a),
        well_formed(b),
        match node.kind {
            NodeType::Operation => node.value is Some && is_binary_operator(
                node.value->0,
            ) && has_value(a.kind) && has_value(b.kind),
            NodeType::If | NodeType::Index => has_value(a.kind) && has_value(b.kind),
            NodeType::Assignment | NodeType::Reassignment => a.kind == NodeType::Identifier
                && has_value(b.kind),
            NodeType::Declaration => a.kind == NodeType::Identifier && b.kind
                == NodeType::Function,
            NodeType::Function => a.kind == NodeType::Args && b.kind == NodeType::Block,
            _ => false,
        },
    ensures
        well_formed(node),
{
    assert forall|i: int| 0 <= i < node.children.len() implies well_formed(
        #[trigger] node.children[i],
    ) by {}
    assert(children_have_values(node) || !(node.kind == NodeType::Operation || node.kind
        == NodeType::If || node.kind == NodeType::Index)) by {
        if node.kind == NodeType::Operation || node.kind == NodeType::If || node.kind
            == NodeType::Index {
            assert forall|i: int| 0 <= i < node.children.len() implies has_value(
                (#[trigger] node.children[i]).kind,
            ) by {}
        }
    }
}

/// A literal and a name are well formed.
proof fn lemma_leaf(kind: NodeType, text: Seq<char>)
    requires
        kind == NodeType::Literal || kind == NodeType::Identifier,
    ensures
        well_formed(leaf(kind, text)),
        has_value(kind),
{
}

/// The rule `statement` is sound.
proof fn lemma_statement(ts: Seq<TokenView>, p: int)
    ensures
        sound(statement(ts, p), ts, p),
    decreases ts.len() - p, 11int,
{
    if 0 <= p < ts.len() {
        if ts[p].kind == TokenType::Keyword {
            let word = ts[p].lexeme;
            if word == "let"@ {
                lemma_assignment(ts, p + 1);
                lemma_wrapped(NodeType::Expression, assignment(ts, p + 1), ts, p + 1);
            } else if word == "if"@ {
                lemma_if_statement(ts, p + 1);
                lemma_wrapped(NodeType::Expression, if_statement(ts, p + 1), ts, p + 1);
            } else if word == "funk"@ {
                lemma_function_declaration(ts, p + 1);
                lemma_wrapped(NodeType::Expression, function_declaration(ts, p + 1), ts, p + 1);
            } else if word == "return"@ {
                lemma_return_statement(ts, p + 1);
                lemma_wrapped(NodeType::Expression, return_statement(ts, p + 1), ts, p + 1);
            } else if word == "print"@ || word == "println"@ {
                lemma_function_call(ts, p);
                lemma_wrapped(NodeType::Expression, function_call(ts, p), ts, p);
            } else if word == "true"@ || word == "false"@ || is_builtin_call(word) {
                lemma_expression(ts, p);
            }
        } else if ts[p].kind == TokenType::Identifier && at_text(
            ts,
            p + 1,
            TokenType::Operator,
            "="@,
        ) {
            lemma_reassignment(ts, p);
            lemma_wrapped(NodeType::Expression, reassignment(ts, p), ts, p);
        } else {
            lemma_expression(ts, p);
        }
    }
}

/// The rule `assignment` is sound.
proof fn lemma_assignment(ts: Seq<TokenView>, p: int)
    ensures
        sound(assignment(ts, p), ts, p),
    decreases ts.len() - p, 10int,
{
    let name = skip_type_hint(ts, p);
    if 0 <= p && at(ts, name, TokenType::Identifier) && at_text(
        ts,
        name + 1,
        TokenType::Operator,
        "="@,
    ) {
        lemma_expression(ts, name + 2);
        match expression(ts, name + 2) {
            Ok((value, q)) => {
                let id = leaf(NodeType::Identifier, ts[name].lexeme);
                lemma_leaf(NodeType::Identifier, ts[name].lexeme);
                lemma_pair(branch(NodeType::Assignment, seq![id, value]), id, value);
            },
            Err(_) => {},
        }
    }
}

/// The rule `reassignment` is sound.
proof fn lemma_reassignment(ts: Seq<TokenView>, p: int)
    ensures
        sound(reassignment(ts, p), ts, p),
    decreases ts.len() - p, 10int,
{
    if 0 <= p < ts.len() && at_text(ts, p + 1, TokenType::Operator, "="@) {
        lemma_expression(ts, p + 2);
        match expression(ts, p + 2) {
            Ok((value, q)) => {
                let id = leaf(NodeType::Identifier, ts[p].lexeme);
                lemma_leaf(NodeType::Identifier, ts[p].lexeme);
                lemma_pair(branch(NodeType::Reassignment, seq![id, value]), id, value);
            },
            Err(_) => {},
        }
    }
}

/// The rule `return_statement` is sound.
proof fn lemma_return_statement(ts: Seq<TokenView>, p: int)
    ensures
        sound(return_statement(ts, p), ts, p),
    decreases ts.len() - p, 10int,
{
    lemma_expression(ts, p);
    lemma_wrapped(NodeType::Return, expression(ts, p), ts, p);
}

/// The rule `if_statement` is sound.
proof fn lemma_if_statement(ts: Seq<TokenView>, p: int)
    ensures
        sound(if_statement(ts, p), ts, p),
    decreases ts.len() - p, 10int,
{
    lemma_expression(ts, p);
    match forward(expression(ts, p), ts, p) {
        Ok((condition, q)) => {
            lemma_block(ts, q);
            match forward(block(ts, q), ts, q) {
                Ok((then, r)) => {
                    if !at_text(ts, r, TokenType::Keyword, "else"@) {
                        lemma_pair(branch(NodeType::If, seq![condition, then]), condition, then);
                    } else {
                        let other = if at_text(ts, r + 1, TokenType::Keyword, "if"@) {
                            lemma_if_statement(ts, r + 2);
                            if_statement(ts, r + 2)
                        } else {
                            lemma_block(ts, r + 1);
                            block(ts, r + 1)
                        };
                        match other {
                            Ok((otherwise, s)) => {
                                let node = branch(NodeType::If, seq![condition, then, otherwise]);
                                assert forall|i: int|
                                    0 <= i < node.children.len() implies well_formed(
                                    #[trigger] node.children[i],
                                ) && has_value(node.children[i].kind) by {}
                            },
                            Err(_) => {},
                        }
                    }
                },
                Err(_) => {},
            }
        },
        Err(_) => {},
    }
}

/// The rule `block` is sound, and gives a block.
proof fn lemma_block(ts: Seq<TokenView>, p: int)
    ensures
        sound(block(ts, p), ts, p),
        block(ts, p) matches Ok((tree, _)) ==> tree.kind == NodeType::Block,
    decreases ts.len() - p, 3int,
{
    if at(ts, p, TokenType::LeftBrace) {
        lemma_block_items(ts, p + 1, Seq::empty());
        match block_items(ts, p + 1, Seq::empty()) {
            Ok((items, q)) => {
                lemma_over_values(branch(NodeType::Block, items));
            },
            Err(_) => {},
        }
    }
}

/// The rule `block_items` is sound.
proof fn lemma_block_items(ts: Seq<TokenView>, p: int, done: Seq<NodeView>)
    requires
        all_have_values(done),
    ensures
        sound_list(block_items(ts, p, done), ts, p),
        block_items(ts, p, done) matches Ok((_, q)) ==> p < q,
    decreases ts.len() - p, 12int,
{
    if !at(ts, p, TokenType::RightBrace) && 0 <= p < ts.len() {
        lemma_statement(ts, p);
        match forward(statement(ts, p), ts, p) {
            Ok((item, q)) => {
                lemma_push(done, item);
                lemma_block_items(ts, q, done.push(item));
            },
            Err(_) => {},
        }
    }
}

/// The rule `function_declaration` is sound.
proof fn lemma_function_declaration(ts: Seq<TokenView>, p: int)
    ensures
        sound(function_declaration(ts, p), ts, p),
    decreases ts.len() - p, 10int,
{
    if at(ts, p, TokenType::Identifier) && at(ts, p + 1, TokenType::LeftParen) {
        let listed = if at(ts, p + 2, TokenType::RightParen) {
            Ok((Seq::empty(), p + 2))
        } else {
            lemma_args(ts, p + 2, Seq::empty());
            args(ts, p + 2, Seq::empty())
        };
        match listed {
            Ok((names, q)) => {
                if at(ts, q, TokenType::RightParen) && p < q {
                    lemma_block(ts, q + 1);
                    match block(ts, q + 1) {
                        Ok((body, r)) => {
                            let id = leaf(NodeType::Identifier, ts[p].lexeme);
                            let list = branch(NodeType::Args, names);
                            let function = branch(NodeType::Function, seq![list, body]);
                            lemma_leaf(NodeType::Identifier, ts[p].lexeme);
                            assert(well_formed(list));
                            lemma_pair(function, list, body);
                            lemma_pair(
                                branch(NodeType::Declaration, seq![id, function]),
                                id,
                                function,
                            );
                        },
                        Err(_) => {},
                    }
                }
            },
            Err(_) => {},
        }
    }
}

/// The rule `args` gives names.
proof fn lemma_args(ts: Seq<TokenView>, p: int, done: Seq<NodeView>)
    requires
        all_names(done),
    ensures
        args(ts, p, done) matches Ok((names, q)) ==> p <= q <= ts.len() && all_names(names),
    decreases ts.len() - p, 10int,
{
    let name = skip_type_hint(ts, p);
    if 0 <= p && at(ts, name, TokenType::Identifier) {
        let id = leaf(NodeType::Identifier, ts[name].lexeme);
        lemma_leaf(NodeType::Identifier, ts[name].lexeme);
        assert forall|i: int| 0 <= i < done.push(id).len() implies well_formed(
            #[trigger] done.push(id)[i],
        ) && done.push(id)[i].kind == NodeType::Identifier by {
            if i < done.len() {
                assert(done.push(id)[i] == done[i]);
            }
        }
        lemma_args_tail(ts, name + 1, done.push(id));
    }
}

/// The rule `args_tail` gives names.
proof fn lemma_args_tail(ts: Seq<TokenView>, p: int, done: Seq<NodeView>)
    requires
        all_names(done),
        0 <= p <= ts.len(),
    ensures
        args_tail(ts, p, done) matches Ok((names, q)) ==> p <= q <= ts.len() && all_names(names),
    decreases ts.len() - p, 9int,
{
    if at(ts, p, TokenType::Comma) {
        lemma_args(ts, p + 1, done);
    }
}

/// The rule `function_call` is sound.
proof fn lemma_function_call(ts: Seq<TokenView>, p: int)
    ensures
        sound(function_call(ts, p), ts, p),
    decreases ts.len() - p, 3int,
{
    if 0 <= p < ts.len() && at(ts, p + 1, TokenType::LeftParen) {
        lemma_parameters(ts, p + 2, Seq::empty());
        match parameters(ts, p + 2, Seq::empty()) {
            Ok((arguments, q)) => {
                if at(ts, q, TokenType::RightParen) {
                    let list = branch(NodeType::Parameters, arguments);
                    lemma_over_values(list);
                    let node = named(NodeType::FunctionCall, ts[p].lexeme, seq![list]);
                    assert forall|i: int| 0 <= i < node.children.len() implies well_formed(
                        #[trigger] node.children[i],
                    ) by {}
                }
            },
            Err(_) => {},
        }
    }
}

/// The rule `parameters` is sound.
proof fn lemma_parameters(ts: Seq<TokenView>, p: int, done: Seq<NodeView>)
    requires
        all_have_values(done),
        0 <= p <= ts.len(),
    ensures
        sound_list(parameters(ts, p, done), ts, p),
    decreases ts.len() - p, 9int,
{
    if !at(ts, p, TokenType::RightParen) {
        lemma_expression(ts, p);
        match forward(expression(ts, p), ts, p) {
            Ok((argument, q)) => {
                lemma_push(done, argument);
                lemma_parameters_tail(ts, q, done.push(argument));
            },
            Err(_) => {},
        }
    }
}

/// The rule `parameters_tail` is sound.
proof fn lemma_parameters_tail(ts: Seq<TokenView>, p: int, done: Seq<NodeView>)
    requires
        all_have_values(done),
        0 <= p <= ts.len(),
    ensures
        sound_list(parameters_tail(ts, p, done), ts, p),
    decreases ts.len() - p, 8int,
{
    if at(ts, p, TokenType::Comma) {
        lemma_parameters(ts, p + 1, done);
    }
}

/// The rule `expression` is sound.
proof fn lemma_expression(ts: Seq<TokenView>, p: int)
    ensures
        sound(expression(ts, p), ts, p),
    decreases ts.len() - p, 7int,
{
    lemma_term(ts, p);
    match forward(term(ts, p), ts, p) {
        Ok((first, q)) => {
            lemma_expression_tail(ts, q, first);
            match expression_tail(ts, q, first) {
                Ok((tree, _)) => {
                    lemma_around(NodeType::Expression, tree);
                },
                Err(_) => {},
            }
        },
        Err(_) => {},
    }
}

/// The rule `expression_tail` is sound.
proof fn lemma_expression_tail(ts: Seq<TokenView>, p: int, left: NodeView)
    requires
        well_formed(left),
        has_value(left.kind),
        0 <= p <= ts.len(),
    ensures
        expression_tail(ts, p, left) matches Ok((tree, q)) ==> p <= q <= ts.len() && well_formed(
            tree,
        ) && has_value(tree.kind),
    decreases ts.len() - p, 6int,
{
    if at(ts, p, TokenType::Operator) && is_expression_operator(ts[p].lexeme) {
        lemma_term(ts, p + 1);
        match forward(term(ts, p + 1), ts, p + 1) {
            Ok((right, q)) => {
                let joined = named(NodeType::Operation, ts[p].lexeme, seq![left, right]);
                lemma_pair(joined, left, right);
                lemma_expression_tail(ts, q, joined);
            },
            Err(_) => {},
        }
    }
}

/// The rule `term` is sound.
proof fn lemma_term(ts: Seq<TokenView>, p: int)
    ensures
        sound(term(ts, p), ts, p),
    decreases ts.len() - p, 6int,
{
    lemma_factor(ts, p);
    match forward(factor(ts, p), ts, p) {
        Ok((first, q)) => {
            lemma_term_tail(ts, q, first);
            match term_tail(ts, q, first) {
                Ok((tree, _)) => {
                    lemma_around(NodeType::Term, tree);
                },
                Err(_) => {},
            }
        },
        Err(_) => {},
    }
}

/// The rule `term_tail` is sound.
proof fn lemma_term_tail(ts: Seq<TokenView>, p: int, left: NodeView)
    requires
        well_formed(left),
        has_value(left.kind),
        0 <= p <= ts.len(),
    ensures
        term_tail(ts, p, left) matches Ok((tree, q)) ==> p <= q <= ts.len() && well_formed(tree)
            && has_value(tree.kind),
    decreases ts.len() - p, 5int,
{
    if at(ts, p, TokenType::Operator) && is_term_operator(ts[p].lexeme) {
        lemma_factor(ts, p + 1);
        match forward(factor(ts, p + 1), ts, p + 1) {
            Ok((right, q)) => {
                let joined = named(NodeType::Operation, ts[p].lexeme, seq![left, right]);
                lemma_pair(joined, left, right);
                lemma_term_tail(ts, q, joined);
            },
            Err(_) => {},
        }
    }
}

/// The rule `factor` is sound.
proof fn lemma_factor(ts: Seq<TokenView>, p: int)
    ensures
        sound(factor(ts, p), ts, p),
    decreases ts.len() - p, 5int,
{
    if 0 <= p < ts.len() {
        let literal = leaf(NodeType::Literal, ts[p].lexeme);
        let name = leaf(NodeType::Identifier, ts[p].lexeme);
        lemma_leaf(NodeType::Literal, ts[p].lexeme);
        lemma_leaf(NodeType::Identifier, ts[p].lexeme);
        lemma_around(NodeType::Factor, literal);
        lemma_around(NodeType::Factor, name);
        match ts[p].kind {
            TokenType::LeftParen => {
                lemma_expression(ts, p + 1);
                lemma_wrapped(NodeType::Factor, expression(ts, p + 1), ts, p + 1);
            },
            TokenType::Identifier => {
                if at(ts, p + 1, TokenType::LeftParen) {
                    lemma_call_or_index(ts, p);
                    lemma_wrapped(NodeType::Factor, call_or_index(ts, p), ts, p);
                } else if at(ts, p + 1, TokenType::LeftBracket) {
                    lemma_index(ts, p + 2, name);
                    lemma_wrapped(NodeType::Factor, index(ts, p + 2, name), ts, p + 2);
                }
            },
            TokenType::Keyword => {
                if !(ts[p].lexeme == "true"@ || ts[p].lexeme == "false"@) && is_builtin_call(
                    ts[p].lexeme,
                ) {
                    lemma_call_or_index(ts, p);
                    lemma_wrapped(NodeType::Factor, call_or_index(ts, p), ts, p);
                }
            },
            TokenType::LeftBracket => {
                lemma_list(ts, p + 1);
                lemma_wrapped(NodeType::Factor, list(ts, p + 1), ts, p + 1);
            },
            _ => {},
        }
    }
}

/// The rule `call_or_index` is sound.
proof fn lemma_call_or_index(ts: Seq<TokenView>, p: int)
    ensures
        sound(call_or_index(ts, p), ts, p),
    decreases ts.len() - p, 4int,
{
    lemma_function_call(ts, p);
    match forward(function_call(ts, p), ts, p) {
        Ok((call, q)) => {
            if at(ts, q, TokenType::LeftBracket) {
                lemma_index(ts, q + 1, call);
            }
        },
        Err(_) => {},
    }
}

/// The rule `index` is sound.
proof fn lemma_index(ts: Seq<TokenView>, p: int, indexed: NodeView)
    requires
        well_formed(indexed),
        has_value(indexed.kind),
    ensures
        sound(index(ts, p, indexed), ts, p),
    decreases ts.len() - p, 8int,
{
    lemma_expression(ts, p);
    match expression(ts, p) {
        Ok((position, q)) => {
            if at(ts, q, TokenType::RightBracket) {
                lemma_pair(branch(NodeType::Index, seq![indexed, position]), indexed, position);
            }
        },
        Err(_) => {},
    }
}

/// The rule `list` is sound.
proof fn lemma_list(ts: Seq<TokenView>, p: int)
    ensures
        sound(list(ts, p), ts, p),
    decreases ts.len() - p, 10int,
{
    if at(ts, p, TokenType::RightBracket) {
        lemma_over_values(branch(NodeType::List, Seq::empty()));
    } else {
        lemma_expression(ts, p);
        match forward(expression(ts, p), ts, p) {
            Ok((first, q)) => {
                lemma_push(Seq::empty(), first);
                assert(Seq::<NodeView>::empty().push(first) =~= seq![first]);
                lemma_list_tail(ts, q, seq![first]);
                match list_tail(ts, q, seq![first]) {
                    Ok((items, r)) => {
                        lemma_over_values(branch(NodeType::List, items));
                    },
                    Err(_) => {},
                }
            },
            Err(_) => {},
        }
    }
}

/// The rule `list_tail` is sound.
proof fn lemma_list_tail(ts: Seq<TokenView>, p: int, done: Seq<NodeView>)
    requires
        all_have_values(done),
    ensures
        sound_list(list_tail(ts, p, done), ts, p),
        list_tail(ts, p, done) matches Ok((_, q)) ==> p < q,
    decreases ts.len() - p, 9int,
{
    if !at(ts, p, TokenType::RightBracket) && at(ts, p, TokenType::Comma) {
        lemma_expression(ts, p + 1);
        match forward(expression(ts, p + 1), ts, p + 1) {
            Ok((item, q)) => {
                lemma_push(done, item);
                lemma_list_tail(ts, q, done.push(item));
            },
            Err(_) => {},
        }
    }
}

/// Whether the rule for the tail of an expression joins from the left at
/// `p`: where an operator stands there and a term follows it, the tree built
/// so far is the left operand of the operator, the term is the right one, and
/// the tree of the two is what the rest of the tail is joined to.
pub open spec fn joins_from_the_left(ts: Seq<TokenView>, p: int, left: NodeView) -> bool {
    at(ts, p, TokenType::Operator) && is_expression_operator(ts[p].lexeme) ==> match term(
        ts,
        p + 1,
    ) {
        Ok((right, q)) => expression_tail(ts, p, left) == expression_tail(
            ts,
            q,
            named(NodeType::Operation, ts[p].lexeme, seq![left, right]),
        ),
        Err(e) => expression_tail(ts, p, left) == Err::<(NodeView, int), _>(e),
    }
}

/// Left association: the tail of an expression joins from the left at every
/// position and after every tree.
pub proof fn lemma_tail_joins_from_the_left(ts: Seq<TokenView>, p: int, left: NodeView)
    ensures
        joins_from_the_left(ts, p, left),
{
    lemma_term(ts, p + 1);
}

/// The statements of a program are well formed and have values.
pub proof fn lemma_program_items(ts: Seq<TokenView>, p: int, done: Seq<NodeView>)
    requires
        all_have_values(done),
    ensures
        program_items(ts, p, done) matches Ok(items) ==> all_have_values(items),
    decreases ts.len() - p, 12int,
{
    if 0 <= p < ts.len() {
        lemma_statement(ts, p);
        match forward(statement(ts, p), ts, p) {
            Ok((item, q)) => {
                lemma_push(done, item);
                lemma_program_items(ts, q, done.push(item));
            },
            Err(_) => {},
        }
    }
}

/// Every rule of the grammar that succeeds consumes a token and ends inside
/// the tokens: `forward` changes the result of no rule.
pub proof fn lemma_rules_advance(ts: Seq<TokenView>, p: int)
    ensures
        forward(statement(ts, p), ts, p) == statement(ts, p),
        forward(expression(ts, p), ts, p) == expression(ts, p),
        forward(term(ts, p), ts, p) == term(ts, p),
        forward(factor(ts, p), ts, p) == factor(ts, p),
        forward(function_call(ts, p), ts, p) == function_call(ts, p),
        forward(block(ts, p), ts, p) == block(ts, p),
{
    lemma_statement(ts, p);
    lemma_expression(ts, p);
    lemma_term(ts, p);
    lemma_factor(ts, p);
    lemma_function_call(ts, p);
    lemma_block(ts, p);
}

/// A `Program` node over well-formed statements is well formed.
pub proof fn lemma_program_node(items: Seq<NodeView>)
    requires
        all_have_values(items),
    ensures
        well_formed(branch(NodeType::Program, items)),
{
    lemma_over_values(branch(NodeType::Program, items));
}

/// The tree of a program is a `Program` node, and every node of it has the
/// payload and the children of its kind.
pub proof fn lemma_program_well_formed(ts: Seq<TokenView>)
    ensures
        program(ts) matches Ok(root) ==> root.kind == NodeType::Program && well_formed(root),
{
    lemma_program_items(ts, 0, Seq::empty());
    match program_items(ts, 0, Seq::empty()) {
        Ok(items) => {
            lemma_program_node(items);
        },
        Err(_) => {},
    }
}

} // verus!
