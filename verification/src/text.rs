//! Conversions between strings and sequences of characters.
use vstd::prelude::*;
use vstd::utf8::{encode_utf8, encode_utf8_decode_utf8};

verus! {

/// `std::string::String::push`. Assumed, not proved: it appends the character
/// to the end of the string.
pub assume_specification[ std::string::String::push ](s: &mut std::string::String, c: char)
    ensures
        final(s)@ == old(s)@.push(c),
;

/// The characters of a string, in order.
pub fn chars_of(s: &str) -> (v: Vec<char>)
    ensures
        v@ == s@,
{
    let mut v: Vec<char> = Vec::new();
    for c in it: s.chars()
        invariant
            v@ == it.seq().take(it.index() as int),
            it.seq() == s@,
    {
        v.push(c);
    }
    v
}

/// The string made of the characters from `start` to before `end`, in order.
pub fn string_between(v: &Vec<char>, start: usize, end: usize) -> (s: String)
    requires
        start <= end <= v.len(),
    ensures
        s@ == v@.subrange(start as int, end as int),
{
    let mut s = String::new();
    let mut i: usize = start;
    assert(s@ =~= v@.subrange(start as int, i as int));
    while i < end
        invariant
            start <= i <= end <= v.len(),
            s@ == v@.subrange(start as int, i as int),
        decreases end - i,
    {
        s.push(v[i]);
        i += 1;
        assert(s@ =~= v@.subrange(start as int, i as int));
    }
    s
}

/// The string made of the given characters, in order.
pub fn string_of(v: &Vec<char>) -> (s: String)
    ensures
        s@ == v@,
{
    let s = string_between(v, 0, v.len());
    assert(v@.subrange(0, v.len() as int) =~= v@);
    s
}

/// Whether two strings hold the same characters. Their UTF-8 forms are
/// compared byte by byte: two texts with the same bytes are the same text.
pub fn same_text(a: &str, b: &str) -> (same: bool)
    ensures
        same == (a@ == b@),
{
    let x = a.as_bytes();
    let y = b.as_bytes();
    proof {
        encode_utf8_decode_utf8(a@);
        encode_utf8_decode_utf8(b@);
    }
    if x.len() != y.len() {
        return false;
    }
    let mut i: usize = 0;
    while i < x.len()
        invariant
            i <= x.len(),
            x.len() == y.len(),
            x@ == encode_utf8(a@),
            y@ == encode_utf8(b@),
            forall|j: int| 0 <= j < i ==> x@[j] == y@[j],
        decreases x.len() - i,
    {
        if x[i] != y[i] {
            return false;
        }
        i += 1;
    }
    assert(x@ =~= y@);
    true
}

} // verus!
