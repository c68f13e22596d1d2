use crate::node::node::{Node, NodeView};
use vstd::prelude::*;

verus! {

/// The kind of a token.
#[derive(PartialEq, Eq, Structural, Clone, Copy, Debug)]
pub enum TokenType {
    Number,
    Operator,
    LeftParen,
    RightParen,
    Keyword,
    Identifier,
    LeftBrace,
    RightBrace,
    LeftBracket,
    RightBracket,
    Comma,
    String,
}

/// A token: its kind, its text as written, and the line it ends on (from 1).
#[derive(Debug, PartialEq)]
pub struct Token {
    pub token_type: TokenType,
    pub value: String,
    pub line: i32,
}

/// The mathematical model of a [`Token`].
pub struct TokenView {
    pub kind: TokenType,
    pub lexeme: Seq<char>,
    pub line: i32,
}

impl View for Token {
    type V = TokenView;

    open spec fn view(&self) -> TokenView {
        TokenView { kind: self.token_type, lexeme: self.value@, line: self.line }
    }
}

/// The models of a sequence of tokens, in order.
pub open spec fn token_views(tokens: Seq<Token>) -> Seq<TokenView> {
    tokens.map_values(|t: Token| t@)
}

impl Token {
    pub fn new(token_type: TokenType, value: String, line: i32) -> (token: Token)
        ensures
            token@ == (TokenView { kind: token_type, lexeme: value@, line }),
    {
        Token { token_type, value, line }
    }
}

impl Clone for Token {
    fn clone(&self) -> (copy: Self)
        ensures
            copy@ == self@,
    {
        Token { token_type: self.token_type, value: self.value.clone(), line: self.line }
    }
}

/// A runtime value.
///
/// A `Float` keeps the text of the literal it was written as: the language has
/// no operation on floats, so the text is all that is ever observed of one.
#[derive(Debug, PartialEq)]
pub enum Value {
    Number(i32),
    String(String),
    Boolean(bool),
    Float(String),
    List(Vec<Value>),
    Function(Node),
    Null,
}

/// The mathematical model of a [`Value`].
pub enum ValueView {
    Number(i32),
    String(Seq<char>),
    Boolean(bool),
    Float(Seq<char>),
    List(Seq<ValueView>),
    Function(NodeView),
    Null,
}

/// The models of a sequence of values, in order.
pub open spec fn value_views(values: Seq<Value>) -> Seq<ValueView>
    decreases values, 0nat,
{
    if values.len() == 0 {
        Seq::empty()
    } else {
        value_views(values.drop_last()).push(value_view(values.last()))
    }
}

/// The model of one value.
pub open spec fn value_view(value: Value) -> ValueView
    decreases value, 1nat,
{
    match value {
        Value::Number(n) => ValueView::Number(n),
        Value::String(s) => ValueView::String(s@),
        Value::Boolean(b) => ValueView::Boolean(b),
        Value::Float(s) => ValueView::Float(s@),
        Value::List(items) => ValueView::List(value_views(items@)),
        Value::Function(node) => ValueView::Function(node@),
        Value::Null => ValueView::Null,
    }
}

impl View for Value {
    type V = ValueView;

    open spec fn view(&self) -> ValueView {
        value_view(*self)
    }
}

/// `value_views` maps `value_view` over the sequence, index by index.
pub broadcast proof fn lemma_value_views(values: Seq<Value>)
    ensures
        (#[trigger] value_views(values)).len() == values.len(),
        forall|i: int|
            0 <= i < values.len() ==> (#[trigger] value_views(values)[i]) == values[i]@,
    decreases values.len(),
{
    if values.len() > 0 {
        lemma_value_views(values.drop_last());
    }
}

/// The model of a list has the models of the list's items.
pub broadcast proof fn lemma_list_view(value: Value)
    requires
        value is List,
    ensures
        #[trigger] value_view(value) == ValueView::List(value_views(value->List_0@)),
{
}

pub broadcast group group_value_views {
    lemma_list_view,
    lemma_value_views,
}

/// Appending a value appends its model.
pub proof fn lemma_value_views_push(values: Seq<Value>, value: Value)
    ensures
        value_views(values.push(value)) == value_views(values).push(value@),
{
    assert(values.push(value).drop_last() =~= values);
}

impl Clone for Value {
    fn clone(&self) -> (copy: Self)
        ensures
            copy@ == self@,
        decreases self,
    {
        match self {
            Value::Number(n) => Value::Number(*n),
            Value::String(s) => Value::String(s.clone()),
            Value::Boolean(b) => Value::Boolean(*b),
            Value::Float(s) => Value::Float(s.clone()),
            Value::List(items) => {
                let mut copies: Vec<Value> = Vec::new();
                let mut i: usize = 0;
                while i < items.len()
                    invariant
                        i <= items.len(),
                        *self is List,
                        self->List_0 == *items,
                        value_views(copies@) == value_views(items@.take(i as int)),
                    decreases items.len() - i,
                {
                    assert(decreases_to!(*self => self->List_0));
                    let item = items[i].clone();
                    proof {
                        lemma_value_views_push(copies@, item);
                        lemma_value_views_push(items@.take(i as int), items@[i as int]);
                        assert(items@.take(i as int).push(items@[i as int]) =~= items@.take(
                            i as int + 1,
                        ));
                    }
                    copies.push(item);
                    i += 1;
                }
                assert(items@.take(i as int) =~= items@);
                Value::List(copies)
            },
            Value::Function(node) => Value::Function(node.clone()),
            Value::Null => Value::Null,
        }
    }
}

} // verus!
