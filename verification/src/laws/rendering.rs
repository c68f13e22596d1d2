use crate::interpreter::builtins::{literal_value, render, unquoted};
use crate::interpreter::error::RuntimeError;
use crate::interpreter::number::{
    is_digit, lemma_decimal_digits, lemma_number_text_parses, number_text,
};
use crate::interpreter::semantics::{done, eval, Machine};
use crate::node::node::NodeType;
use crate::parser::grammar::leaf;
use crate::token::token::ValueView;
use vstd::prelude::*;

verus! {

/// The decimal text of a number is made of digits and at most a minus sign.
proof fn lemma_number_text_chars(n: i32)
    ensures
        forall|i: int|
            0 <= i < number_text(n as int).len() ==> {
                let c = #[trigger] number_text(n as int)[i];
                is_digit(c) || c == '-'
            },
{
    if n < 0 {
        lemma_decimal_digits((-n) as nat);
    } else {
        lemma_decimal_digits(n as nat);
    }
}

/// A text without double quotes stays as it is when its quotes are taken out.
proof fn lemma_unquoted_plain(text: Seq<char>)
    requires
        !text.contains('"'),
    ensures
        unquoted(text) == text,
    decreases text.len(),
{
    if text.len() > 0 {
        assert(text.last() == text[text.len() - 1]);
        assert forall|i: int| 0 <= i < text.drop_last().len() implies text.drop_last()[i]
            != '"' by {
            assert(text.drop_last()[i] == text[i]);
        }
        lemma_unquoted_plain(text.drop_last());
        assert(text.drop_last().push(text.last()) =~= text);
    }
}

/// A text without double quotes, put between two, is the text again when the
/// quotes are taken out.
proof fn lemma_unquoted_quoted(text: Seq<char>)
    requires
        !text.contains('"'),
    ensures
        unquoted(seq!['"'] + text + seq!['"']) == text,
    decreases text.len(),
{
    let quoted = seq!['"'] + text + seq!['"'];
    assert(quoted.drop_last() =~= seq!['"'] + text);
    lemma_unquoted_opened(text);
}

/// A text without double quotes, after one, is the text again when the quote
/// is taken out.
proof fn lemma_unquoted_opened(text: Seq<char>)
    requires
        !text.contains('"'),
    ensures
        unquoted(seq!['"'] + text) == text,
    decreases text.len(),
{
    let opened = seq!['"'] + text;
    if text.len() == 0 {
        assert(opened.drop_last() =~= Seq::<char>::empty());
        assert(unquoted(opened.drop_last()) =~= Seq::<char>::empty());
    } else {
        assert(text.last() == text[text.len() - 1]);
        assert forall|i: int| 0 <= i < text.drop_last().len() implies text.drop_last()[i]
            != '"' by {
            assert(text.drop_last()[i] == text[i]);
        }
        lemma_unquoted_opened(text.drop_last());
        assert(opened.drop_last() =~= seq!['"'] + text.drop_last());
        assert(text.drop_last().push(text.last()) =~= text);
    }
}

/// What a number is printed as, read back as a literal, is the number.
pub proof fn lemma_number_round_trip(n: i32, machine: Machine, depth: nat)
    ensures
        literal_value(render(ValueView::Number(n))) == Ok::<_, RuntimeError>(
            ValueView::Number(n),
        ),
        eval(leaf(NodeType::Literal, render(ValueView::Number(n))), machine, depth) == done(
            machine,
            ValueView::Number(n),
        ),
{
    let text = number_text(n as int);
    lemma_number_text_chars(n);
    lemma_number_text_parses(n);
    reveal_strlit("true");
    reveal_strlit("false");
    if n < 0 {
        lemma_decimal_digits((-n) as nat);
    } else {
        lemma_decimal_digits(n as nat);
    }
    assert(text.len() > 0);
    assert(is_digit(text[0]) || text[0] == '-');
    assert(text != "true"@);
    assert(text != "false"@);
}

/// What a boolean is printed as, read back as a literal, is the boolean.
pub proof fn lemma_boolean_round_trip(b: bool, machine: Machine, depth: nat)
    ensures
        literal_value(render(ValueView::Boolean(b))) == Ok::<_, RuntimeError>(
            ValueView::Boolean(b),
        ),
        eval(leaf(NodeType::Literal, render(ValueView::Boolean(b))), machine, depth) == done(
            machine,
            ValueView::Boolean(b),
        ),
{
    reveal_strlit("true");
    reveal_strlit("false");
}

/// What a string without double quotes is printed as, put between double
/// quotes and read back as a literal, is the string.
pub proof fn lemma_string_round_trip(text: Seq<char>, machine: Machine, depth: nat)
    requires
        !text.contains('"'),
    ensures
        literal_value(seq!['"'] + render(ValueView::String(text)) + seq!['"']) == Ok::<
            _,
            RuntimeError,
        >(ValueView::String(text)),
        eval(
            leaf(NodeType::Literal, seq!['"'] + render(ValueView::String(text)) + seq!['"']),
            machine,
            depth,
        ) == done(machine, ValueView::String(text)),
{
    let quoted = seq!['"'] + text + seq!['"'];
    assert(quoted[0] == '"');
    assert(quoted.contains('"'));
    lemma_unquoted_quoted(text);
}

} // verus!
