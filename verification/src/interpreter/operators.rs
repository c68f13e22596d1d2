use crate::interpreter::error::{value_result_view, RuntimeError};
use crate::text::same_text;
use crate::token::token::{
    lemma_value_views, lemma_value_views_push, value_views, Value, ValueView,
};
use vstd::prelude::*;
use vstd::string::StringExecFns;

verus! {

/// The quotient of two integers, rounded towards zero. The divisor is not zero.
pub open spec fn truncated_quotient(x: int, d: int) -> int {
    if x == 0 {
        0
    } else if x > 0 && d > 0 {
        x / d
    } else if x < 0 && d < 0 {
        (x * -1) / (d * -1)
    } else if x < 0 {
        ((x * -1) / d) * -1
    } else {
        (x / (d * -1)) * -1
    }
}

/// The remainder that goes with `truncated_quotient`: it has the sign of the
/// dividend. The divisor is not zero.
pub open spec fn truncated_remainder(x: int, d: int) -> int {
    if x == 0 {
        0
    } else if x > 0 && d > 0 {
        x % d
    } else if x < 0 && d < 0 {
        ((x * -1) % (d * -1)) * -1
    } else if x < 0 {
        ((x * -1) % d) * -1
    } else {
        x % (d * -1)
    }
}

/// 32-bit division that wraps: the one quotient that does not fit,
/// `i32::MIN / -1`, is `i32::MIN`.
pub open spec fn wrapping_quotient(a: i32, b: i32) -> i32 {
    if a == i32::MIN && b == -1 {
        i32::MIN
    } else {
        truncated_quotient(a as int, b as int) as i32
    }
}

/// 32-bit remainder that wraps: `i32::MIN % -1` is `0`.
pub open spec fn wrapping_remainder(a: i32, b: i32) -> i32 {
    if a == i32::MIN && b == -1 {
        0
    } else {
        truncated_remainder(a as int, b as int) as i32
    }
}

/// Whether the text names a binary operator of the language.
pub open spec fn is_binary_operator(op: Seq<char>) -> bool {
    ||| op == "+"@
    ||| op == "-"@
    ||| op == "*"@
    ||| op == "/"@
    ||| op == "%"@
    ||| op == "=="@
    ||| op == "!="@
    ||| op == ">"@
    ||| op == ">="@
    ||| op == "<"@
    ||| op == "<="@
}

/// `+`: the wrapping sum of two numbers, or two strings or two lists joined.
pub open spec fn plus(a: ValueView, b: ValueView) -> Result<ValueView, RuntimeError> {
    match (a, b) {
        (ValueView::Number(x), ValueView::Number(y)) => Ok(ValueView::Number(x.wrapping_add(y))),
        (ValueView::Number(_), _) => Err(RuntimeError::ExpectedNumber),
        (ValueView::String(x), ValueView::String(y)) => Ok(ValueView::String(x + y)),
        (ValueView::String(_), _) => Err(RuntimeError::ExpectedString),
        (ValueView::List(x), ValueView::List(y)) => Ok(ValueView::List(x + y)),
        (ValueView::List(_), _) => Err(RuntimeError::ExpectedList),
        _ => Err(RuntimeError::ExpectedNumber),
    }
}

/// `-`, `*`, `/` and `%` on two numbers, all wrapping.
pub open spec fn arithmetic(op: Seq<char>, a: ValueView, b: ValueView) -> Result<
    ValueView,
    RuntimeError,
> {
    match (a, b) {
        (ValueView::Number(x), ValueView::Number(y)) => {
            if op == "-"@ {
                Ok(ValueView::Number(x.wrapping_sub(y)))
            } else if op == "*"@ {
                Ok(ValueView::Number(x.wrapping_mul(y)))
            } else if y == 0 {
                Err(RuntimeError::DivisionByZero)
            } else if op == "/"@ {
                Ok(ValueView::Number(wrapping_quotient(x, y)))
            } else {
                Ok(ValueView::Number(wrapping_remainder(x, y)))
            }
        },
        _ => Err(RuntimeError::ExpectedNumber),
    }
}

/// Whether two values of the same comparable kind are equal.
pub open spec fn same_value(a: ValueView, b: ValueView) -> Result<bool, RuntimeError> {
    match (a, b) {
        (ValueView::Number(x), ValueView::Number(y)) => Ok(x == y),
        (ValueView::Number(_), _) => Err(RuntimeError::ExpectedNumber),
        (ValueView::String(x), ValueView::String(y)) => Ok(x == y),
        (ValueView::String(_), _) => Err(RuntimeError::ExpectedString),
        (ValueView::Boolean(x), ValueView::Boolean(y)) => Ok(x == y),
        (ValueView::Boolean(_), _) => Err(RuntimeError::ExpectedBoolean),
        _ => Err(RuntimeError::ExpectedNumber),
    }
}

/// `==` and `!=` on two numbers, two strings or two booleans.
pub open spec fn equality(op: Seq<char>, a: ValueView, b: ValueView) -> Result<
    ValueView,
    RuntimeError,
> {
    match same_value(a, b) {
        Ok(same) => Ok(ValueView::Boolean(if op == "=="@ { same } else { !same })),
        Err(e) => Err(e),
    }
}

/// `>`, `>=`, `<` and `<=` on two numbers.
pub open spec fn ordering(op: Seq<char>, a: ValueView, b: ValueView) -> Result<
    ValueView,
    RuntimeError,
> {
    match (a, b) {
        (ValueView::Number(x), ValueView::Number(y)) => Ok(
            ValueView::Boolean(
                if op == ">"@ {
                    x > y
                } else if op == ">="@ {
                    x >= y
                } else if op == "<"@ {
                    x < y
                } else {
                    x <= y
                },
            ),
        ),
        _ => Err(RuntimeError::ExpectedNumber),
    }
}

/// A binary operator applied to two values.
pub open spec fn binary_operation(op: Seq<char>, a: ValueView, b: ValueView) -> Result<
    ValueView,
    RuntimeError,
> {
    if op == "+"@ {
        plus(a, b)
    } else if op == "-"@ || op == "*"@ || op == "/"@ || op == "%"@ {
        arithmetic(op, a, b)
    } else if op == "=="@ || op == "!="@ {
        equality(op, a, b)
    } else {
        ordering(op, a, b)
    }
}

/// Unary `-`: the wrapping negation of a number.
pub open spec fn negation(a: ValueView) -> Result<ValueView, RuntimeError> {
    match a {
        ValueView::Number(x) => Ok(ValueView::Number(0i32.wrapping_sub(x))),
        _ => Err(RuntimeError::ExpectedNumber),
    }
}

/// An operator applied to its operands: `-` takes one or two, every other
/// operator two.
pub open spec fn operation(op: Seq<char>, operands: Seq<ValueView>) -> Result<
    ValueView,
    RuntimeError,
> {
    if !is_binary_operator(op) {
        Err(RuntimeError::InvalidOperator)
    } else if op == "-"@ && operands.len() == 1 {
        negation(operands[0])
    } else if operands.len() != 2 {
        Err(RuntimeError::InvalidNode)
    } else {
        binary_operation(op, operands[0], operands[1])
    }
}

/// Copies of the items of `second`, appended to copies of the items of `first`.
pub fn joined(first: &Vec<Value>, second: &Vec<Value>) -> (all: Vec<Value>)
    ensures
        value_views(all@) == value_views(first@) + value_views(second@),
{
    let mut all: Vec<Value> = Vec::new();
    let mut i: usize = 0;
    while i < first.len()
        invariant
            i <= first.len(),
            value_views(all@) == value_views(first@.take(i as int)),
        decreases first.len() - i,
    {
        let item = first[i].clone();
        proof {
            lemma_value_views_push(all@, item);
            lemma_value_views_push(first@.take(i as int), first@[i as int]);
            assert(first@.take(i as int).push(first@[i as int]) =~= first@.take(i as int + 1));
        }
        all.push(item);
        i += 1;
    }
    assert(first@.take(i as int) =~= first@);
    let mut j: usize = 0;
    while j < second.len()
        invariant
            j <= second.len(),
            value_views(all@) == value_views(first@) + value_views(second@.take(j as int)),
        decreases second.len() - j,
    {
        let item = second[j].clone();
        proof {
            lemma_value_views_push(all@, item);
            lemma_value_views_push(second@.take(j as int), second@[j as int]);
            assert(second@.take(j as int).push(second@[j as int]) =~= second@.take(
                j as int + 1,
            ));
            assert((value_views(first@) + value_views(second@.take(j as int))).push(item@)
                =~= value_views(first@) + value_views(second@.take(j as int)).push(item@));
        }
        all.push(item);
        j += 1;
    }
    assert(second@.take(j as int) =~= second@);
    all
}

fn plus_values(a: &Value, b: &Value) -> (r: Result<Value, RuntimeError>)
    ensures
        value_result_view(r) == plus(a@, b@),
{
    match a {
        Value::Number(x) => match b {
            Value::Number(y) => Ok(Value::Number(x.wrapping_add(*y))),
            _ => Err(RuntimeError::ExpectedNumber),
        },
        Value::String(x) => match b {
            Value::String(y) => {
                let mut s = x.clone();
                s.append(y.as_str());
                Ok(Value::String(s))
            },
            _ => Err(RuntimeError::ExpectedString),
        },
        Value::List(x) => match b {
            Value::List(y) => Ok(Value::List(joined(x, y))),
            _ => Err(RuntimeError::ExpectedList),
        },
        _ => Err(RuntimeError::ExpectedNumber),
    }
}

/// Dividing a natural number by a positive one gives a natural number that is
/// no larger.
proof fn lemma_quotient_bounds(x: int, d: int)
    requires
        0 <= x,
        0 < d,
    ensures
        0 <= x / d <= x,
{
    assert(0 <= x / d <= x) by (nonlinear_arith)
        requires
            0 <= x,
            0 < d,
    ;
}

/// The wrapping quotient of two numbers; the divisor is not zero.
fn quotient(x: i32, y: i32) -> (q: i32)
    requires
        y != 0,
    ensures
        q == wrapping_quotient(x, y),
{
    proof {
        let a = x as int;
        let d = y as int;
        if a > 0 && d > 0 {
            lemma_quotient_bounds(a, d);
        } else if a < 0 && d < 0 {
            lemma_quotient_bounds(a * -1, d * -1);
            if d == -1 {
                assert((a * -1) / 1 == a * -1);
            } else {
                assert((a * -1) / (d * -1) < 0x8000_0000) by (nonlinear_arith)
                    requires
                        0 < a * -1 <= 0x8000_0000,
                        2 <= d * -1,
                ;
            }
        } else if a < 0 {
            lemma_quotient_bounds(a * -1, d);
        } else if a > 0 {
            lemma_quotient_bounds(a, d * -1);
        }
    }
    match x.checked_div(y) {
        Some(q) => q,
        None => i32::MIN,
    }
}

/// The wrapping remainder of two numbers; the divisor is not zero.
fn remainder(x: i32, y: i32) -> (r: i32)
    requires
        y != 0,
    ensures
        r == wrapping_remainder(x, y),
{
    match x.checked_rem(y) {
        Some(r) => r,
        None => 0,
    }
}

fn arithmetic_values(op: &str, a: &Value, b: &Value) -> (r: Result<Value, RuntimeError>)
    requires
        op@ == "-"@ || op@ == "*"@ || op@ == "/"@ || op@ == "%"@,
    ensures
        value_result_view(r) == arithmetic(op@, a@, b@),
{
    match a {
        Value::Number(x) => match b {
            Value::Number(y) => {
                if same_text(op, "-") {
                    Ok(Value::Number(x.wrapping_sub(*y)))
                } else if same_text(op, "*") {
                    Ok(Value::Number(x.wrapping_mul(*y)))
                } else if *y == 0 {
                    Err(RuntimeError::DivisionByZero)
                } else if same_text(op, "/") {
                    Ok(Value::Number(quotient(*x, *y)))
                } else {
                    Ok(Value::Number(remainder(*x, *y)))
                }
            },
            _ => Err(RuntimeError::ExpectedNumber),
        },
        _ => Err(RuntimeError::ExpectedNumber),
    }
}

fn same_values(a: &Value, b: &Value) -> (r: Result<bool, RuntimeError>)
    ensures
        r == same_value(a@, b@),
{
    match a {
        Value::Number(x) => match b {
            Value::Number(y) => Ok(*x == *y),
            _ => Err(RuntimeError::ExpectedNumber),
        },
        Value::String(x) => match b {
            Value::String(y) => Ok(same_text(x.as_str(), y.as_str())),
            _ => Err(RuntimeError::ExpectedString),
        },
        Value::Boolean(x) => match b {
            Value::Boolean(y) => Ok(*x == *y),
            _ => Err(RuntimeError::ExpectedBoolean),
        },
        _ => Err(RuntimeError::ExpectedNumber),
    }
}

fn equality_values(op: &str, a: &Value, b: &Value) -> (r: Result<Value, RuntimeError>)
    ensures
        value_result_view(r) == equality(op@, a@, b@),
{
    match same_values(a, b) {
        Ok(same) => {
            if same_text(op, "==") {
                Ok(Value::Boolean(same))
            } else {
                Ok(Value::Boolean(!same))
            }
        },
        Err(e) => Err(e),
    }
}

fn ordering_values(op: &str, a: &Value, b: &Value) -> (r: Result<Value, RuntimeError>)
    ensures
        value_result_view(r) == ordering(op@, a@, b@),
{
    match a {
        Value::Number(x) => match b {
            Value::Number(y) => {
                if same_text(op, ">") {
                    Ok(Value::Boolean(*x > *y))
                } else if same_text(op, ">=") {
                    Ok(Value::Boolean(*x >= *y))
                } else if same_text(op, "<") {
                    Ok(Value::Boolean(*x < *y))
                } else {
                    Ok(Value::Boolean(*x <= *y))
                }
            },
            _ => Err(RuntimeError::ExpectedNumber),
        },
        _ => Err(RuntimeError::ExpectedNumber),
    }
}

/// Whether the text names a binary operator of the language.
pub fn names_operator(op: &str) -> (r: bool)
    ensures
        r == is_binary_operator(op@),
{
    same_text(op, "+") || same_text(op, "-") || same_text(op, "*") || same_text(op, "/")
        || same_text(op, "%") || same_text(op, "==") || same_text(op, "!=") || same_text(op, ">")
        || same_text(op, ">=") || same_text(op, "<") || same_text(op, "<=")
}

/// Applies an operator to the values of its operands.
pub fn apply_operator(op: &str, operands: &Vec<Value>) -> (r: Result<Value, RuntimeError>)
    ensures
        value_result_view(r) == operation(op@, value_views(operands@)),
{
    broadcast use lemma_value_views;

    if !names_operator(op) {
        return Err(RuntimeError::InvalidOperator);
    }
    if same_text(op, "-") && operands.len() == 1 {
        return match &operands[0] {
            Value::Number(x) => Ok(Value::Number(0i32.wrapping_sub(*x))),
            _ => Err(RuntimeError::ExpectedNumber),
        };
    }
    if operands.len() != 2 {
        return Err(RuntimeError::InvalidNode);
    }
    let a = &operands[0];
    let b = &operands[1];
    if same_text(op, "+") {
        plus_values(a, b)
    } else if same_text(op, "-") || same_text(op, "*") || same_text(op, "/") || same_text(
        op,
        "%",
    ) {
        arithmetic_values(op, a, b)
    } else if same_text(op, "==") || same_text(op, "!=") {
        equality_values(op, a, b)
    } else {
        ordering_values(op, a, b)
    }
}

} // verus!
