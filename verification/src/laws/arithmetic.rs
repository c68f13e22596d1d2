use crate::interpreter::builtins::literal_value;
use crate::interpreter::error::RuntimeError;
use crate::interpreter::number::{all_digits, decimal_value, is_digit};
use crate::interpreter::operators::{is_binary_operator, operation};
use crate::interpreter::semantics::{
    declares, done, eval, eval_block, eval_each, eval_operation, hoist, run, settled, value_of,
    with_scopes, Gathered, Machine,
};
use crate::laws::hoisting::{
    declarations, declarations_each, lemma_hoist_binds_declarations, own_declaration, Declared,
};
use crate::laws::lexing::{
    is_number_word, is_operator_word, is_word, lemma_operator_words, lemma_tokens_of_words,
    spaced, word_token, word_tokens,
};
use crate::lexer::scan::{tokens_of, LexErrorView};
use crate::node::node::{NodeType, NodeView};
use crate::parser::grammar::{
    at, branch, expression, expression_tail, factor, is_expression_operator, is_term_operator, leaf,
    named, program, program_items, statement, term, term_tail, ParseErrorView,
};
use crate::token::token::{TokenType, TokenView, ValueView};
use vstd::prelude::*;

verus! {

/// A number as it is written, that fits in 32 bits.
pub open spec fn is_literal_word(word: Seq<char>) -> bool {
    is_number_word(word) && decimal_value(word) <= i32::MAX
}

/// The number that a literal stands for.
pub open spec fn number_of(word: Seq<char>) -> i32 {
    decimal_value(word) as i32
}

/// The tree of a number that stands as a factor.
pub open spec fn number_factor(word: Seq<char>) -> NodeView {
    branch(NodeType::Factor, seq![leaf(NodeType::Literal, word)])
}

/// The tree of a number that stands as a term.
pub open spec fn number_term(word: Seq<char>) -> NodeView {
    branch(NodeType::Term, seq![number_factor(word)])
}

/// The tree of an operator between two operands.
pub open spec fn binary(op: Seq<char>, left: NodeView, right: NodeView) -> NodeView {
    named(NodeType::Operation, op, seq![left, right])
}

/// Whether an operator of terms stands at `p`.
pub open spec fn term_operator_at(ts: Seq<TokenView>, p: int) -> bool {
    at(ts, p, TokenType::Operator) && is_term_operator(ts[p].lexeme)
}

/// Whether an operator of expressions stands at `p`.
pub open spec fn expression_operator_at(ts: Seq<TokenView>, p: int) -> bool {
    at(ts, p, TokenType::Operator) && is_expression_operator(ts[p].lexeme)
}

/// Which of `+`, `-` and `*` join terms and which join factors.
pub proof fn lemma_operator_kinds(op: Seq<char>)
    requires
        is_operator_word(op),
    ensures
        is_binary_operator(op),
        op == "*"@ ==> is_term_operator(op) && !is_expression_operator(op),
        op != "*"@ ==> !is_term_operator(op) && is_expression_operator(op),
        op == "+"@ ==> op != "-"@ && op != "*"@,
        op == "-"@ ==> op != "*"@,
        op != "/"@ && op != "%"@ && op != "=="@ && op != "!="@,
{
    reveal_strlit("+");
    reveal_strlit("-");
    reveal_strlit("*");
    reveal_strlit("/");
    reveal_strlit("%");
    reveal_strlit("==");
    reveal_strlit("!=");
    reveal_strlit(">");
    reveal_strlit(">=");
    reveal_strlit("<");
    reveal_strlit("<=");
    assert("+"@.len() == 1 && "+"@[0] == '+');
    assert("-"@.len() == 1 && "-"@[0] == '-');
    assert("*"@.len() == 1 && "*"@[0] == '*');
    assert("/"@.len() == 1 && "/"@[0] == '/');
    assert("%"@.len() == 1 && "%"@[0] == '%');
    assert(">"@.len() == 1 && ">"@[0] == '>');
    assert("<"@.len() == 1 && "<"@[0] == '<');
    assert("=="@.len() == 2);
    assert("!="@.len() == 2);
    assert(">="@.len() == 2);
    assert("<="@.len() == 2);
    assert(op.len() == 1);
    assert(op[0] == '+' || op[0] == '-' || op[0] == '*');
}

/// A number is a factor.
proof fn lemma_factor_number(ts: Seq<TokenView>, p: int)
    requires
        at(ts, p, TokenType::Number),
    ensures
        factor(ts, p) == Ok::<(NodeView, int), ParseErrorView>(
            (number_factor(ts[p].lexeme), p + 1),
        ),
{
}

/// A number that no operator of terms follows is a term.
proof fn lemma_term_number(ts: Seq<TokenView>, p: int)
    requires
        at(ts, p, TokenType::Number),
        !term_operator_at(ts, p + 1),
    ensures
        term(ts, p) == Ok::<(NodeView, int), ParseErrorView>((number_term(ts[p].lexeme), p + 1)),
{
    lemma_factor_number(ts, p);
    assert(term_tail(ts, p + 1, number_factor(ts[p].lexeme)) == Ok::<
        (NodeView, int),
        ParseErrorView,
    >((number_factor(ts[p].lexeme), p + 1)));
}

/// Two numbers with an operator of terms between them, which no other
/// follows, are a term.
proof fn lemma_term_product(ts: Seq<TokenView>, p: int)
    requires
        at(ts, p, TokenType::Number),
        term_operator_at(ts, p + 1),
        at(ts, p + 2, TokenType::Number),
        !term_operator_at(ts, p + 3),
    ensures
        term(ts, p) == Ok::<(NodeView, int), ParseErrorView>(
            (
                branch(
                    NodeType::Term,
                    seq![
                        binary(
                            ts[p + 1].lexeme,
                            number_factor(ts[p].lexeme),
                            number_factor(ts[p + 2].lexeme),
                        ),
                    ],
                ),
                p + 3,
            ),
        ),
{
    lemma_factor_number(ts, p);
    lemma_factor_number(ts, p + 2);
    let product = binary(
        ts[p + 1].lexeme,
        number_factor(ts[p].lexeme),
        number_factor(ts[p + 2].lexeme),
    );
    assert(term_tail(ts, p + 3, product) == Ok::<(NodeView, int), ParseErrorView>(
        (product, p + 3),
    ));
    assert(term_tail(ts, p + 1, number_factor(ts[p].lexeme)) == Ok::<
        (NodeView, int),
        ParseErrorView,
    >((product, p + 3)));
}

/// Where no operator of expressions stands, an expression ends.
proof fn lemma_expression_ends(ts: Seq<TokenView>, p: int, left: NodeView)
    requires
        !expression_operator_at(ts, p),
    ensures
        expression_tail(ts, p, left) == Ok::<(NodeView, int), ParseErrorView>((left, p)),
{
}

/// An operator of expressions and a term go on the left of what follows.
proof fn lemma_expression_goes_on(
    ts: Seq<TokenView>,
    p: int,
    left: NodeView,
    right: NodeView,
    q: int,
)
    requires
        expression_operator_at(ts, p),
        term(ts, p + 1) == Ok::<(NodeView, int), ParseErrorView>((right, q)),
        p + 1 < q <= ts.len(),
    ensures
        expression_tail(ts, p, left) == expression_tail(
            ts,
            q,
            binary(ts[p].lexeme, left, right),
        ),
{
}

/// A term and what follows it are an expression.
proof fn lemma_expression_starts(
    ts: Seq<TokenView>,
    p: int,
    first: NodeView,
    q: int,
    tree: NodeView,
    r: int,
)
    requires
        term(ts, p) == Ok::<(NodeView, int), ParseErrorView>((first, q)),
        p < q <= ts.len(),
        expression_tail(ts, q, first) == Ok::<(NodeView, int), ParseErrorView>((tree, r)),
    ensures
        expression(ts, p) == Ok::<(NodeView, int), ParseErrorView>(
            (branch(NodeType::Expression, seq![tree]), r),
        ),
{
}

/// Tokens that begin with a number and are one expression are a program of
/// one statement.
proof fn lemma_program_of_expression(ts: Seq<TokenView>, tree: NodeView)
    requires
        at(ts, 0, TokenType::Number),
        expression(ts, 0) == Ok::<(NodeView, int), ParseErrorView>((tree, ts.len() as int)),
    ensures
        program(ts) == Ok::<NodeView, ParseErrorView>(branch(NodeType::Program, seq![tree])),
{
    assert(statement(ts, 0) == expression(ts, 0));
    assert(program_items(ts, ts.len() as int, seq![tree]) == Ok::<
        Seq<NodeView>,
        ParseErrorView,
    >(seq![tree]));
    assert(Seq::<NodeView>::empty().push(tree) =~= seq![tree]);
    assert(program_items(ts, 0, Seq::empty()) == Ok::<Seq<NodeView>, ParseErrorView>(seq![tree]));
}

/// A literal of digits that fits in 32 bits has the number it stands for as
/// its value.
proof fn lemma_literal_number(word: Seq<char>)
    requires
        is_literal_word(word),
    ensures
        literal_value(word) == Ok::<ValueView, RuntimeError>(ValueView::Number(number_of(word))),
{
    reveal_strlit("true");
    reveal_strlit("false");
    assert(is_digit(word[0]));
    assert(word != "true"@);
    assert(word != "false"@);
    lemma_digits_value(word);
}

/// A text of digits stands for a natural number.
proof fn lemma_digits_value(word: Seq<char>)
    requires
        all_digits(word),
    ensures
        0 <= decimal_value(word),
    decreases word.len(),
{
    if word.len() > 0 {
        assert forall|i: int| 0 <= i < word.drop_last().len() implies is_digit(
            #[trigger] word.drop_last()[i],
        ) by {
            assert(word.drop_last()[i] == word[i]);
        }
        lemma_digits_value(word.drop_last());
        assert(is_digit(word[word.len() - 1]));
    }
}

/// A number that stands as a factor or as a term has the number as its value,
/// and leaves the state as it was.
proof fn lemma_eval_number(word: Seq<char>, machine: Machine, depth: nat)
    requires
        is_literal_word(word),
    ensures
        eval(number_factor(word), machine, depth) == done(
            machine,
            ValueView::Number(number_of(word)),
        ),
        eval(number_term(word), machine, depth) == done(
            machine,
            ValueView::Number(number_of(word)),
        ),
{
    lemma_literal_number(word);
    assert(eval(leaf(NodeType::Literal, word), machine, depth) == done(
        machine,
        ValueView::Number(number_of(word)),
    ));
    assert(eval(number_factor(word), machine, depth) == eval(
        leaf(NodeType::Literal, word),
        machine,
        depth,
    ));
}

/// Where the operands have values and leave the state as it was, the
/// operation has the value that the operator gives for them.
proof fn lemma_eval_binary(
    op: Seq<char>,
    left: NodeView,
    right: NodeView,
    x: ValueView,
    y: ValueView,
    machine: Machine,
    depth: nat,
)
    requires
        eval(left, machine, depth) == done(machine, x),
        eval(right, machine, depth) == done(machine, y),
    ensures
        eval(binary(op, left, right), machine, depth) == settled(
            machine,
            operation(op, seq![x, y]),
        ),
{
    let nodes = seq![left, right];
    let none = Seq::<ValueView>::empty();
    assert(none.push(x).push(y) =~= seq![x, y]);
    assert(eval_each(nodes, 2, machine, seq![x, y], depth) == Gathered {
        machine,
        result: Ok(seq![x, y]),
    });
    assert(eval_each(nodes, 1, machine, none.push(x), depth) == eval_each(
        nodes,
        2,
        machine,
        none.push(x).push(y),
        depth,
    ));
    assert(eval_each(nodes, 0, machine, none, depth) == eval_each(
        nodes,
        1,
        machine,
        none.push(x),
        depth,
    ));
    assert(eval(binary(op, left, right), machine, depth) == eval_operation(
        binary(op, left, right),
        machine,
        depth,
    ));
}

/// A `Term` or an `Expression` around a tree has the value of the tree.
proof fn lemma_eval_wrapped(kind: NodeType, tree: NodeView, machine: Machine, depth: nat)
    requires
        kind == NodeType::Term || kind == NodeType::Expression,
    ensures
        eval(branch(kind, seq![tree]), machine, depth) == eval(tree, machine, depth),
{
}

/// Whether a tree holds no declaration.
pub open spec fn declaration_free(node: NodeView) -> bool
    decreases node,
{
    &&& node.kind != NodeType::Declaration
    &&& forall|i: int| 0 <= i < node.children.len() ==> declaration_free(#[trigger] node.children[i])
}

/// A tree that holds no declaration declares nothing.
proof fn lemma_declares_nothing(node: NodeView)
    requires
        declaration_free(node),
    ensures
        own_declaration(node) == Seq::<Declared>::empty(),
        declarations(node) == Seq::<Declared>::empty(),
    decreases node, 1nat,
{
    lemma_each_declares_nothing(node.children, 0);
}

proof fn lemma_each_declares_nothing(nodes: Seq<NodeView>, i: int)
    requires
        forall|j: int| 0 <= j < nodes.len() ==> declaration_free(#[trigger] nodes[j]),
    ensures
        declarations_each(nodes, i) == Seq::<Declared>::empty(),
    decreases nodes, nodes.len() - i,
{
    if 0 <= i < nodes.len() {
        assert(declaration_free(nodes[i]));
        lemma_declares_nothing(nodes[i]);
        lemma_each_declares_nothing(nodes, i + 1);
        assert(declarations_each(nodes, i) =~= Seq::<Declared>::empty());
    }
}

/// A program of one statement that declares nothing and has a value, leaving
/// the state as it was, has that value.
proof fn lemma_run_statement(tree: NodeView, value: ValueView, machine: Machine, depth: nat)
    requires
        declaration_free(tree),
        eval(tree, machine, depth) == done(machine, value),
    ensures
        value_of(run(branch(NodeType::Program, seq![tree]), machine, depth)) == Ok::<
            ValueView,
            RuntimeError,
        >(value),
        run(branch(NodeType::Program, seq![tree]), machine, depth).machine == machine,
{
    let root = branch(NodeType::Program, seq![tree]);
    lemma_hoist_binds_declarations(root, machine.scopes);
    assert forall|j: int| 0 <= j < root.children.len() implies declaration_free(
        #[trigger] root.children[j],
    ) by {}
    lemma_each_declares_nothing(root.children, 0);
    assert(hoist(root, machine.scopes) == machine.scopes);
    assert(with_scopes(machine, machine.scopes) == machine);
    assert(eval_block(root.children, 1, machine, value, depth) == done(machine, value));
    assert(eval_block(root.children, 0, machine, ValueView::Number(0), depth) == done(
        machine,
        value,
    ));
}

/// The trees of numbers hold no declaration.
proof fn lemma_numbers_declare_nothing(word: Seq<char>)
    ensures
        declaration_free(number_factor(word)),
        declaration_free(number_term(word)),
{
    assert(declaration_free(leaf(NodeType::Literal, word)));
    assert(declaration_free(number_factor(word)));
}

/// An operation on two trees that hold no declaration holds none, and
/// neither does a `Term` or an `Expression` around such a tree.
proof fn lemma_binary_declares_nothing(op: Seq<char>, left: NodeView, right: NodeView)
    requires
        declaration_free(left),
        declaration_free(right),
    ensures
        declaration_free(binary(op, left, right)),
        declaration_free(branch(NodeType::Term, seq![binary(op, left, right)])),
        declaration_free(branch(NodeType::Expression, seq![binary(op, left, right)])),
        declaration_free(
            branch(
                NodeType::Expression,
                seq![branch(NodeType::Term, seq![binary(op, left, right)])],
            ),
        ),
{
    assert(declaration_free(binary(op, left, right)));
    assert(declaration_free(branch(NodeType::Term, seq![binary(op, left, right)])));
}

/// What `+`, `-` and `*` give for two numbers in 32-bit arithmetic that wraps.
pub open spec fn native(op: Seq<char>, x: i32, y: i32) -> i32 {
    if op == "+"@ {
        x.wrapping_add(y)
    } else if op == "-"@ {
        x.wrapping_sub(y)
    } else {
        x.wrapping_mul(y)
    }
}

/// The operators `+`, `-` and `*` give for two numbers what `native` says.
proof fn lemma_operation_native(op: Seq<char>, x: i32, y: i32)
    requires
        is_operator_word(op),
    ensures
        operation(op, seq![ValueView::Number(x), ValueView::Number(y)]) == Ok::<
            ValueView,
            RuntimeError,
        >(ValueView::Number(native(op, x, y))),
{
    lemma_operator_kinds(op);
}

/// The tokens of three words are the tokens of the words.
proof fn lemma_three_words(a: Seq<char>, op: Seq<char>, b: Seq<char>)
    requires
        is_word(a),
        is_word(op),
        is_word(b),
    ensures
        spaced(seq![a, op, b]) == a + seq![' '] + op + seq![' '] + b,
        tokens_of(a + seq![' '] + op + seq![' '] + b) == Ok::<Seq<TokenView>, LexErrorView>(
            word_tokens(seq![a, op, b]),
        ),
{
    let words = seq![a, op, b];
    assert(words.drop_last() =~= seq![a, op]);
    assert(seq![a, op].drop_last() =~= seq![a]);
    assert(spaced(seq![a]) == a);
    assert(spaced(seq![a, op]) == a + seq![' '] + op);
    assert(spaced(words) == a + seq![' '] + op + seq![' '] + b);
    lemma_tokens_of_words(words);
}

/// The tokens of five words are the tokens of the words.
proof fn lemma_five_words(
    a: Seq<char>,
    first: Seq<char>,
    b: Seq<char>,
    second: Seq<char>,
    c: Seq<char>,
)
    requires
        is_word(a),
        is_word(first),
        is_word(b),
        is_word(second),
        is_word(c),
    ensures
        tokens_of(
            a + seq![' '] + first + seq![' '] + b + seq![' '] + second + seq![' '] + c,
        ) == Ok::<Seq<TokenView>, LexErrorView>(word_tokens(seq![a, first, b, second, c])),
{
    let words = seq![a, first, b, second, c];
    assert(words.drop_last() =~= seq![a, first, b, second]);
    assert(seq![a, first, b, second].drop_last() =~= seq![a, first, b]);
    assert(seq![a, first, b].drop_last() =~= seq![a, first]);
    assert(seq![a, first].drop_last() =~= seq![a]);
    assert(spaced(seq![a]) == a);
    assert(spaced(seq![a, first]) == a + seq![' '] + first);
    assert(spaced(seq![a, first, b]) == a + seq![' '] + first + seq![' '] + b);
    assert(spaced(seq![a, first, b, second]) == a + seq![' '] + first + seq![' '] + b + seq![
        ' ',
    ] + second);
    assert(spaced(words) == a + seq![' '] + first + seq![' '] + b + seq![' '] + second + seq![
        ' ',
    ] + c);
    lemma_tokens_of_words(words);
}

/// Pure arithmetic: the program `a OP b`, where `a` and `b` are literals of
/// digits that fit in 32 bits and `OP` is `+`, `-` or `*`, has tokens and a
/// tree, and its value is what the operator gives in 32-bit arithmetic that
/// wraps. Running it leaves the state as it was.
pub proof fn lemma_pure_arithmetic(
    a: Seq<char>,
    op: Seq<char>,
    b: Seq<char>,
    machine: Machine,
    depth: nat,
)
    requires
        is_literal_word(a),
        is_literal_word(b),
        is_operator_word(op),
    ensures
        tokens_of(a + seq![' '] + op + seq![' '] + b) is Ok,
        program(tokens_of(a + seq![' '] + op + seq![' '] + b)->Ok_0) is Ok,
        value_of(
            run(
                program(tokens_of(a + seq![' '] + op + seq![' '] + b)->Ok_0)->Ok_0,
                machine,
                depth,
            ),
        ) == Ok::<ValueView, RuntimeError>(
            ValueView::Number(native(op, number_of(a), number_of(b))),
        ),
{
    lemma_operator_words(op);
    lemma_operator_kinds(op);
    lemma_three_words(a, op, b);
    let ts = word_tokens(seq![a, op, b]);
    assert(ts[0] == word_token(a));
    assert(ts[1] == word_token(op));
    assert(ts[2] == word_token(b));
    let x = ValueView::Number(number_of(a));
    let y = ValueView::Number(number_of(b));
    lemma_eval_number(a, machine, depth);
    lemma_eval_number(b, machine, depth);
    lemma_numbers_declare_nothing(a);
    lemma_numbers_declare_nothing(b);
    lemma_operation_native(op, number_of(a), number_of(b));
    if op == "*"@ {
        let product = binary(op, number_factor(a), number_factor(b));
        let whole = branch(NodeType::Term, seq![product]);
        lemma_term_product(ts, 0);
        lemma_expression_ends(ts, 3, whole);
        lemma_expression_starts(ts, 0, whole, 3, whole, 3);
        let tree = branch(NodeType::Expression, seq![whole]);
        lemma_program_of_expression(ts, tree);
        lemma_eval_binary(op, number_factor(a), number_factor(b), x, y, machine, depth);
        lemma_eval_wrapped(NodeType::Term, product, machine, depth);
        lemma_eval_wrapped(NodeType::Expression, whole, machine, depth);
        lemma_binary_declares_nothing(op, number_factor(a), number_factor(b));
        lemma_run_statement(tree, ValueView::Number(native(op, number_of(a), number_of(b))), machine, depth);
    } else {
        let sum = binary(op, number_term(a), number_term(b));
        lemma_term_number(ts, 0);
        lemma_term_number(ts, 2);
        lemma_expression_ends(ts, 3, sum);
        lemma_expression_goes_on(ts, 1, number_term(a), number_term(b), 3);
        lemma_expression_starts(ts, 0, number_term(a), 1, sum, 3);
        let tree = branch(NodeType::Expression, seq![sum]);
        lemma_program_of_expression(ts, tree);
        lemma_eval_binary(op, number_term(a), number_term(b), x, y, machine, depth);
        lemma_eval_wrapped(NodeType::Expression, sum, machine, depth);
        lemma_binary_declares_nothing(op, number_term(a), number_term(b));
        lemma_run_statement(tree, ValueView::Number(native(op, number_of(a), number_of(b))), machine, depth);
    }
}

/// Precedence: the program `a + b * c` has the value of `a + (b * c)`.
pub proof fn lemma_precedence(
    a: Seq<char>,
    b: Seq<char>,
    c: Seq<char>,
    machine: Machine,
    depth: nat,
)
    requires
        is_literal_word(a),
        is_literal_word(b),
        is_literal_word(c),
    ensures
        ({
            let text = a + seq![' '] + "+"@ + seq![' '] + b + seq![' '] + "*"@ + seq![' '] + c;
            &&& tokens_of(text) is Ok
            &&& program(tokens_of(text)->Ok_0) is Ok
            &&& value_of(run(program(tokens_of(text)->Ok_0)->Ok_0, machine, depth)) == Ok::<
                ValueView,
                RuntimeError,
            >(
                ValueView::Number(
                    number_of(a).wrapping_add(number_of(b).wrapping_mul(number_of(c))),
                ),
            )
        }),
{
    let plus = "+"@;
    let times = "*"@;
    lemma_operator_words(plus);
    lemma_operator_words(times);
    lemma_operator_kinds(plus);
    lemma_operator_kinds(times);
    lemma_five_words(a, plus, b, times, c);
    let ts = word_tokens(seq![a, plus, b, times, c]);
    assert(ts[0] == word_token(a));
    assert(ts[1] == word_token(plus));
    assert(ts[2] == word_token(b));
    assert(ts[3] == word_token(times));
    assert(ts[4] == word_token(c));
    let x = ValueView::Number(number_of(a));
    let y = ValueView::Number(number_of(b));
    let z = ValueView::Number(number_of(c));
    let inner = number_of(b).wrapping_mul(number_of(c));
    lemma_eval_number(a, machine, depth);
    lemma_eval_number(b, machine, depth);
    lemma_eval_number(c, machine, depth);
    lemma_numbers_declare_nothing(a);
    lemma_numbers_declare_nothing(b);
    lemma_numbers_declare_nothing(c);
    let product = binary(times, number_factor(b), number_factor(c));
    let right = branch(NodeType::Term, seq![product]);
    let sum = binary(plus, number_term(a), right);
    lemma_term_number(ts, 0);
    lemma_term_product(ts, 2);
    lemma_expression_ends(ts, 5, sum);
    lemma_expression_goes_on(ts, 1, number_term(a), right, 5);
    lemma_expression_starts(ts, 0, number_term(a), 1, sum, 5);
    let tree = branch(NodeType::Expression, seq![sum]);
    lemma_program_of_expression(ts, tree);
    lemma_operation_native(times, number_of(b), number_of(c));
    lemma_eval_binary(times, number_factor(b), number_factor(c), y, z, machine, depth);
    lemma_eval_wrapped(NodeType::Term, product, machine, depth);
    lemma_operation_native(plus, number_of(a), inner);
    lemma_eval_binary(plus, number_term(a), right, x, ValueView::Number(inner), machine, depth);
    lemma_eval_wrapped(NodeType::Expression, sum, machine, depth);
    lemma_binary_declares_nothing(times, number_factor(b), number_factor(c));
    lemma_binary_declares_nothing(plus, number_term(a), right);
    lemma_run_statement(
        tree,
        ValueView::Number(number_of(a).wrapping_add(inner)),
        machine,
        depth,
    );
}

/// Left association at the tail of an expression: in the tokens of
/// `a - b - c`, the tail entered after the term `a` gives the tree of
/// `(a - b) - c`, whose left operand is the tree of `a - b`, and ends at the
/// end of the tokens.
pub proof fn lemma_left_association_at_the_tail(a: Seq<char>, b: Seq<char>, c: Seq<char>)
    requires
        is_number_word(a),
        is_number_word(b),
        is_number_word(c),
    ensures
        tokens_of(a + seq![' '] + "-"@ + seq![' '] + b + seq![' '] + "-"@ + seq![' '] + c)
            == Ok::<Seq<TokenView>, LexErrorView>(word_tokens(seq![a, "-"@, b, "-"@, c])),
        term(word_tokens(seq![a, "-"@, b, "-"@, c]), 0) == Ok::<(NodeView, int), ParseErrorView>(
            (number_term(a), 1),
        ),
        expression_tail(word_tokens(seq![a, "-"@, b, "-"@, c]), 1, number_term(a)) == Ok::<
            (NodeView, int),
            ParseErrorView,
        >(
            (
                binary("-"@, binary("-"@, number_term(a), number_term(b)), number_term(c)),
                word_tokens(seq![a, "-"@, b, "-"@, c]).len() as int,
            ),
        ),
{
    let minus = "-"@;
    lemma_operator_words(minus);
    lemma_operator_kinds(minus);
    lemma_five_words(a, minus, b, minus, c);
    let ts = word_tokens(seq![a, minus, b, minus, c]);
    assert(ts[0] == word_token(a));
    assert(ts[1] == word_token(minus));
    assert(ts[2] == word_token(b));
    assert(ts[3] == word_token(minus));
    assert(ts[4] == word_token(c));
    let left = binary(minus, number_term(a), number_term(b));
    let whole = binary(minus, left, number_term(c));
    lemma_term_number(ts, 0);
    lemma_term_number(ts, 2);
    lemma_term_number(ts, 4);
    lemma_expression_ends(ts, 5, whole);
    lemma_expression_goes_on(ts, 3, left, number_term(c), 5);
    lemma_expression_goes_on(ts, 1, number_term(a), number_term(b), 3);
}

/// Left associativity: the program `a - b - c` has the value of `(a - b) - c`.
pub proof fn lemma_left_associativity(
    a: Seq<char>,
    b: Seq<char>,
    c: Seq<char>,
    machine: Machine,
    depth: nat,
)
    requires
        is_literal_word(a),
        is_literal_word(b),
        is_literal_word(c),
    ensures
        ({
            let text = a + seq![' '] + "-"@ + seq![' '] + b + seq![' '] + "-"@ + seq![' '] + c;
            &&& tokens_of(text) is Ok
            &&& program(tokens_of(text)->Ok_0) is Ok
            &&& value_of(run(program(tokens_of(text)->Ok_0)->Ok_0, machine, depth)) == Ok::<
                ValueView,
                RuntimeError,
            >(
                ValueView::Number(
                    number_of(a).wrapping_sub(number_of(b)).wrapping_sub(number_of(c)),
                ),
            )
        }),
{
    let minus = "-"@;
    lemma_operator_words(minus);
    lemma_operator_kinds(minus);
    lemma_five_words(a, minus, b, minus, c);
    let ts = word_tokens(seq![a, minus, b, minus, c]);
    assert(ts[0] == word_token(a));
    assert(ts[1] == word_token(minus));
    assert(ts[2] == word_token(b));
    assert(ts[3] == word_token(minus));
    assert(ts[4] == word_token(c));
    let x = ValueView::Number(number_of(a));
    let y = ValueView::Number(number_of(b));
    let z = ValueView::Number(number_of(c));
    let inner = number_of(a).wrapping_sub(number_of(b));
    lemma_eval_number(a, machine, depth);
    lemma_eval_number(b, machine, depth);
    lemma_eval_number(c, machine, depth);
    lemma_numbers_declare_nothing(a);
    lemma_numbers_declare_nothing(b);
    lemma_numbers_declare_nothing(c);
    let left = binary(minus, number_term(a), number_term(b));
    let whole = binary(minus, left, number_term(c));
    lemma_term_number(ts, 0);
    lemma_term_number(ts, 2);
    lemma_term_number(ts, 4);
    lemma_expression_ends(ts, 5, whole);
    lemma_expression_goes_on(ts, 3, left, number_term(c), 5);
    lemma_expression_goes_on(ts, 1, number_term(a), number_term(b), 3);
    lemma_expression_starts(ts, 0, number_term(a), 1, whole, 5);
    let tree = branch(NodeType::Expression, seq![whole]);
    lemma_program_of_expression(ts, tree);
    lemma_operation_native(minus, number_of(a), number_of(b));
    lemma_eval_binary(minus, number_term(a), number_term(b), x, y, machine, depth);
    lemma_operation_native(minus, inner, number_of(c));
    lemma_eval_binary(minus, left, number_term(c), ValueView::Number(inner), z, machine, depth);
    lemma_eval_wrapped(NodeType::Expression, whole, machine, depth);
    lemma_binary_declares_nothing(minus, number_term(a), number_term(b));
    lemma_binary_declares_nothing(minus, left, number_term(c));
    lemma_run_statement(
        tree,
        ValueView::Number(inner.wrapping_sub(number_of(c))),
        machine,
        depth,
    );
}

} // verus!
