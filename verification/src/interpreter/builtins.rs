use crate::interpreter::error::{value_result_view, RuntimeError};
use crate::interpreter::number::{number_text, parse_i32, parse_number, push_number};
use crate::text::{chars_of, same_text, string_between};
use crate::token::token::{
    lemma_value_views, lemma_value_views_push, value_views, Value, ValueView,
};
use vstd::prelude::*;
use vstd::string::StringExecFns;
use vstd::utf8::encode_utf8;

verus! {

/// A text without its double quotes.
pub open spec fn unquoted(text: Seq<char>) -> Seq<char>
    decreases text.len(),
{
    if text.len() == 0 {
        text
    } else if text.last() == '"' {
        unquoted(text.drop_last())
    } else {
        unquoted(text.drop_last()).push(text.last())
    }
}

/// The value of a literal: a string where the text holds a double quote, a
/// float where it holds a point, a boolean where it is `true` or `false`, and
/// a 32-bit number otherwise.
pub open spec fn literal_value(text: Seq<char>) -> Result<ValueView, RuntimeError> {
    if text.contains('"') {
        Ok(ValueView::String(unquoted(text)))
    } else if text.contains('.') {
        Ok(ValueView::Float(text))
    } else if text == "true"@ {
        Ok(ValueView::Boolean(true))
    } else if text == "false"@ {
        Ok(ValueView::Boolean(false))
    } else {
        match parse_number(text) {
            Some(n) => Ok(ValueView::Number(n)),
            None => Err(RuntimeError::InvalidLiteral),
        }
    }
}

/// Whether a character occurs among the given ones.
fn has_char(chars: &Vec<char>, c: char) -> (r: bool)
    ensures
        r == chars@.contains(c),
{
    let mut i: usize = 0;
    while i < chars.len()
        invariant
            i <= chars.len(),
            forall|j: int| 0 <= j < i ==> chars@[j] != c,
        decreases chars.len() - i,
    {
        if chars[i] == c {
            return true;
        }
        i += 1;
    }
    false
}

/// The given characters without the double quotes among them.
fn strip_quotes(chars: &Vec<char>) -> (s: String)
    ensures
        s@ == unquoted(chars@),
{
    let mut s = String::new();
    let mut i: usize = 0;
    assert(chars@.take(0) =~= Seq::<char>::empty());
    while i < chars.len()
        invariant
            i <= chars.len(),
            s@ == unquoted(chars@.take(i as int)),
        decreases chars.len() - i,
    {
        assert(chars@.take(i + 1).drop_last() =~= chars@.take(i as int));
        if chars[i] != '"' {
            s.push(chars[i]);
        }
        i += 1;
    }
    assert(chars@.take(i as int) =~= chars@);
    s
}

/// The value of a literal.
pub fn literal(text: &str) -> (r: Result<Value, RuntimeError>)
    ensures
        value_result_view(r) == literal_value(text@),
{
    let chars = chars_of(text);
    if has_char(&chars, '"') {
        Ok(Value::String(strip_quotes(&chars)))
    } else if has_char(&chars, '.') {
        Ok(Value::Float(text.to_owned()))
    } else if same_text(text, "true") {
        Ok(Value::Boolean(true))
    } else if same_text(text, "false") {
        Ok(Value::Boolean(false))
    } else {
        match parse_i32(text) {
            Some(n) => Ok(Value::Number(n)),
            None => Err(RuntimeError::InvalidLiteral),
        }
    }
}

/// How a value is printed: a number in decimal, a float as it was written, a
/// string without quotes, and a list as its items in brackets.
pub open spec fn render(value: ValueView) -> Seq<char>
    decreases value, 0nat,
{
    match value {
        ValueView::Number(n) => number_text(n as int),
        ValueView::Float(text) => text,
        ValueView::String(text) => text,
        ValueView::Boolean(b) => if b {
            "true"@
        } else {
            "false"@
        },
        ValueView::Null => "null"@,
        ValueView::Function(_) => "function"@,
        ValueView::List(items) => seq!['['] + render_items(items, 0) + seq![']'],
    }
}

/// The items of a list from the one at `i` on, printed with `, ` between them.
pub open spec fn render_items(items: Seq<ValueView>, i: int) -> Seq<char>
    decreases items, items.len() - i,
{
    if !(0 <= i < items.len()) {
        Seq::empty()
    } else if i == items.len() - 1 {
        render(items[i])
    } else {
        render(items[i]) + seq![',', ' '] + render_items(items, i + 1)
    }
}

/// Appends to a text how a value is printed.
pub fn print_value(value: &Value, out: &mut String)
    ensures
        final(out)@ == old(out)@ + render(value@),
    decreases value,
{
    match value {
        Value::Number(n) => {
            push_number(*n, out);
        },
        Value::Float(text) => {
            out.append(text.as_str());
        },
        Value::String(text) => {
            out.append(text.as_str());
        },
        Value::Boolean(b) => {
            if *b {
                out.append("true");
            } else {
                out.append("false");
            }
        },
        Value::Null => {
            out.append("null");
        },
        Value::Function(_) => {
            out.append("function");
        },
        Value::List(items) => {
            out.push('[');
            let ghost opened = out@;
            let ghost views = value_views(items@);
            proof {
                lemma_value_views(items@);
                assert(opened + render_items(views, 0) =~= opened + render_items(views, 0));
            }
            let mut i: usize = 0;
            while i < items.len()
                invariant
                    i <= items.len(),
                    *value is List,
                    value->List_0 == *items,
                    views == value_views(items@),
                    views.len() == items.len(),
                    out@ + render_items(views, i as int) == opened + render_items(views, 0),
                decreases items.len() - i,
            {
                let ghost before = out@;
                proof {
                    lemma_value_views(items@);
                    assert(decreases_to!(*value => value->List_0));
                }
                print_value(&items[i], out);
                if i < items.len() - 1 {
                    out.push(',');
                    out.push(' ');
                    assert(out@ + render_items(views, i + 1) =~= before + render_items(
                        views,
                        i as int,
                    ));
                } else {
                    assert(out@ + render_items(views, i + 1) =~= before + render_items(
                        views,
                        i as int,
                    ));
                }
                i += 1;
            }
            out.push(']');
            assert(out@ =~= old(out)@ + render(value@));
        },
    }
}

/// The name of the type of a value.
pub open spec fn kind_name(value: ValueView) -> Seq<char> {
    match value {
        ValueView::Number(_) => "number"@,
        ValueView::Float(_) => "float"@,
        ValueView::String(_) => "string"@,
        ValueView::Boolean(_) => "bool"@,
        ValueView::List(_) => "list"@,
        ValueView::Function(_) => "function"@,
        ValueView::Null => "null"@,
    }
}

/// The first item of a list.
pub open spec fn head(value: ValueView) -> Result<ValueView, RuntimeError> {
    match value {
        ValueView::List(items) => if items.len() > 0 {
            Ok(items[0])
        } else {
            Err(RuntimeError::IndexOutOfRange)
        },
        _ => Err(RuntimeError::ExpectedList),
    }
}

/// A list without its first item, or a string without its first character.
pub open spec fn tail(value: ValueView) -> Result<ValueView, RuntimeError> {
    match value {
        ValueView::List(items) => if items.len() > 0 {
            Ok(ValueView::List(items.drop_first()))
        } else {
            Err(RuntimeError::IndexOutOfRange)
        },
        ValueView::String(text) => if text.len() > 0 {
            Ok(ValueView::String(text.drop_first()))
        } else {
            Err(RuntimeError::IndexOutOfRange)
        },
        _ => Err(RuntimeError::ExpectedListOrString),
    }
}

/// A count as a 32-bit number: the largest one where the count does not fit.
pub open spec fn count(n: nat) -> i32 {
    if n > i32::MAX {
        i32::MAX
    } else {
        n as i32
    }
}

/// The number of items of a list, or of bytes in the UTF-8 form of a string.
pub open spec fn length(value: ValueView) -> Result<ValueView, RuntimeError> {
    match value {
        ValueView::List(items) => Ok(ValueView::Number(count(items.len()))),
        ValueView::String(text) => Ok(ValueView::Number(count(encode_utf8(text).len()))),
        _ => Err(RuntimeError::ExpectedListOrString),
    }
}

/// The item of a list at a position, or the byte at a position in the UTF-8
/// form of a string, as a string of one character.
pub open spec fn element(indexed: ValueView, position: ValueView) -> Result<
    ValueView,
    RuntimeError,
> {
    match position {
        ValueView::Number(i) => match indexed {
            ValueView::String(text) => if 0 <= i < encode_utf8(text).len() {
                Ok(ValueView::String(seq![encode_utf8(text)[i as int] as char]))
            } else {
                Err(RuntimeError::IndexOutOfRange)
            },
            ValueView::List(items) => if 0 <= i < items.len() {
                Ok(items[i as int])
            } else {
                Err(RuntimeError::IndexOutOfRange)
            },
            _ => Err(RuntimeError::ExpectedListOrString),
        },
        _ => Err(RuntimeError::ExpectedNumber),
    }
}

/// The built-in functions that take one value and have no effect.
pub open spec fn is_pure_builtin(name: Seq<char>) -> bool {
    ||| name == "head"@
    ||| name == "tail"@
    ||| name == "len"@
    ||| name == "type"@
    ||| name == "is_bool"@
    ||| name == "is_number"@
    ||| name == "is_string"@
    ||| name == "is_list"@
    ||| name == "is_function"@
}

/// The built-in functions.
pub open spec fn is_builtin(name: Seq<char>) -> bool {
    ||| name == "print"@
    ||| name == "println"@
    ||| name == "input"@
    ||| is_pure_builtin(name)
}

/// What a built-in function without effect returns for a value.
pub open spec fn pure_builtin(name: Seq<char>, value: ValueView) -> Result<
    ValueView,
    RuntimeError,
> {
    if name == "head"@ {
        head(value)
    } else if name == "tail"@ {
        tail(value)
    } else if name == "len"@ {
        length(value)
    } else if name == "type"@ {
        Ok(ValueView::String(kind_name(value)))
    } else if name == "is_bool"@ {
        Ok(ValueView::Boolean(value is Boolean))
    } else if name == "is_number"@ {
        Ok(ValueView::Boolean(value is Number))
    } else if name == "is_string"@ {
        Ok(ValueView::Boolean(value is String))
    } else if name == "is_list"@ {
        Ok(ValueView::Boolean(value is List))
    } else {
        Ok(ValueView::Boolean(value is Function))
    }
}

/// Copies of the items of a list from the second on.
fn rest(items: &Vec<Value>) -> (all: Vec<Value>)
    requires
        items.len() > 0,
    ensures
        value_views(all@) == value_views(items@).drop_first(),
{
    let mut all: Vec<Value> = Vec::new();
    let mut i: usize = 1;
    proof {
        lemma_value_views(items@);
        lemma_value_views(all@);
        assert(value_views(all@) =~= value_views(items@).subrange(1, 1));
    }
    while i < items.len()
        invariant
            1 <= i <= items.len(),
            value_views(all@) == value_views(items@).subrange(1, i as int),
        decreases items.len() - i,
    {
        let item = items[i].clone();
        proof {
            lemma_value_views(items@);
            lemma_value_views_push(all@, item);
            assert(value_views(items@).subrange(1, i as int).push(item@) =~= value_views(
                items@,
            ).subrange(1, i + 1));
        }
        all.push(item);
        i += 1;
    }
    proof {
        lemma_value_views(items@);
        assert(value_views(items@).subrange(1, i as int) =~= value_views(items@).drop_first());
    }
    all
}

/// A count as a 32-bit number.
fn count_of(n: usize) -> (c: i32)
    ensures
        c == count(n as nat),
{
    if n > 0x7fff_ffff {
        i32::MAX
    } else {
        n as i32
    }
}

/// `head(l)`: a copy of the first item of a list.
pub fn handle_head(value: &Value) -> (r: Result<Value, RuntimeError>)
    ensures
        value_result_view(r) == head(value@),
{
    match value {
        Value::List(items) => {
            proof {
                lemma_value_views(items@);
            }
            if items.len() > 0 {
                Ok(items[0].clone())
            } else {
                Err(RuntimeError::IndexOutOfRange)
            }
        },
        _ => Err(RuntimeError::ExpectedList),
    }
}

/// `tail(l)`: copies of the items of a list from the second on, or a string
/// without its first character.
pub fn handle_tail(value: &Value) -> (r: Result<Value, RuntimeError>)
    ensures
        value_result_view(r) == tail(value@),
{
    match value {
        Value::List(items) => {
            proof {
                lemma_value_views(items@);
            }
            if items.len() > 0 {
                Ok(Value::List(rest(items)))
            } else {
                Err(RuntimeError::IndexOutOfRange)
            }
        },
        Value::String(text) => {
            let chars = chars_of(text.as_str());
            if chars.len() > 0 {
                let s = string_between(&chars, 1, chars.len());
                assert(chars@.subrange(1, chars.len() as int) =~= chars@.drop_first());
                Ok(Value::String(s))
            } else {
                Err(RuntimeError::IndexOutOfRange)
            }
        },
        _ => Err(RuntimeError::ExpectedListOrString),
    }
}

/// `len(l)`: the number of items of a list, or of bytes of a string.
pub fn handle_len(value: &Value) -> (r: Result<Value, RuntimeError>)
    ensures
        value_result_view(r) == length(value@),
{
    match value {
        Value::List(items) => {
            proof {
                lemma_value_views(items@);
            }
            Ok(Value::Number(count_of(items.len())))
        },
        Value::String(text) => {
            Ok(Value::Number(count_of(text.as_str().as_bytes().len())))
        },
        _ => Err(RuntimeError::ExpectedListOrString),
    }
}

/// `type(x)`: the name of the type of a value.
pub fn handle_type(value: &Value) -> (r: Value)
    ensures
        r@ == ValueView::String(kind_name(value@)),
{
    let name = match value {
        Value::Number(_) => "number",
        Value::Float(_) => "float",
        Value::String(_) => "string",
        Value::Boolean(_) => "bool",
        Value::List(_) => "list",
        Value::Function(_) => "function",
        Value::Null => "null",
    };
    Value::String(name.to_owned())
}

/// `is_bool(x)`: whether a value is a boolean.
pub fn handle_is_bool(value: &Value) -> (r: Value)
    ensures
        r@ == ValueView::Boolean(value@ is Boolean),
{
    Value::Boolean(matches!(value, Value::Boolean(_)))
}

/// `is_number(x)`: whether a value is a number.
pub fn handle_is_number(value: &Value) -> (r: Value)
    ensures
        r@ == ValueView::Boolean(value@ is Number),
{
    Value::Boolean(matches!(value, Value::Number(_)))
}

/// `is_string(x)`: whether a value is a string.
pub fn handle_is_string(value: &Value) -> (r: Value)
    ensures
        r@ == ValueView::Boolean(value@ is String),
{
    Value::Boolean(matches!(value, Value::String(_)))
}

/// `is_list(x)`: whether a value is a list.
pub fn handle_is_list(value: &Value) -> (r: Value)
    ensures
        r@ == ValueView::Boolean(value@ is List),
{
    Value::Boolean(matches!(value, Value::List(_)))
}

/// `is_function(x)`: whether a value is a function.
pub fn handle_is_function(value: &Value) -> (r: Value)
    ensures
        r@ == ValueView::Boolean(value@ is Function),
{
    Value::Boolean(matches!(value, Value::Function(_)))
}

/// The item of a list, or the byte of a string, at a position.
pub fn handle_index(indexed: &Value, position: &Value) -> (r: Result<Value, RuntimeError>)
    ensures
        value_result_view(r) == element(indexed@, position@),
{
    let i = match position {
        Value::Number(i) => *i,
        _ => {
            return Err(RuntimeError::ExpectedNumber);
        },
    };
    match indexed {
        Value::String(text) => {
            let bytes = text.as_str().as_bytes();
            if 0 <= i && (i as usize) < bytes.len() {
                let mut s = String::new();
                s.push(bytes[i as usize] as char);
                assert(s@ =~= seq![encode_utf8(text@)[i as int] as char]);
                Ok(Value::String(s))
            } else {
                Err(RuntimeError::IndexOutOfRange)
            }
        },
        Value::List(items) => {
            proof {
                lemma_value_views(items@);
            }
            if 0 <= i && (i as usize) < items.len() {
                Ok(items[i as usize].clone())
            } else {
                Err(RuntimeError::IndexOutOfRange)
            }
        },
        _ => Err(RuntimeError::ExpectedListOrString),
    }
}

/// Whether a name is that of a built-in function without effect.
pub fn names_pure_builtin(name: &str) -> (r: bool)
    ensures
        r == is_pure_builtin(name@),
{
    same_text(name, "head") || same_text(name, "tail") || same_text(name, "len") || same_text(
        name,
        "type",
    ) || same_text(name, "is_bool") || same_text(name, "is_number") || same_text(
        name,
        "is_string",
    ) || same_text(name, "is_list") || same_text(name, "is_function")
}

/// Calls a built-in function without effect on a value.
pub fn call_pure_builtin(name: &str, value: &Value) -> (r: Result<Value, RuntimeError>)
    requires
        is_pure_builtin(name@),
    ensures
        value_result_view(r) == pure_builtin(name@, value@),
{
    if same_text(name, "head") {
        handle_head(value)
    } else if same_text(name, "tail") {
        handle_tail(value)
    } else if same_text(name, "len") {
        handle_len(value)
    } else if same_text(name, "type") {
        Ok(handle_type(value))
    } else if same_text(name, "is_bool") {
        Ok(handle_is_bool(value))
    } else if same_text(name, "is_number") {
        Ok(handle_is_number(value))
    } else if same_text(name, "is_string") {
        Ok(handle_is_string(value))
    } else if same_text(name, "is_list") {
        Ok(handle_is_list(value))
    } else {
        Ok(handle_is_function(value))
    }
}

} // verus!
