//! Text decoration shared by the host and its modules: colour codes as chat
//! clients read them, and capitalisation.

use vstd::prelude::*;
use vstd::string::StringExecFns;
use crate::text::{chars_of, push_chars};

verus! {

/// What `char::to_uppercase` yields for `c`.
pub uninterp spec fn upper_of(c: char) -> Seq<char>;

/// What `char::to_lowercase` yields for `c`.
pub uninterp spec fn lower_of(c: char) -> Seq<char>;

/// The characters that `char::to_uppercase` yields for `c`: its uppercase
/// mapping by the Unicode tables of the standard library, which can be more
/// than one character.
#[verifier::external_body]
fn to_upper(c: char) -> (out: Vec<char>)
    ensures
        out@ == upper_of(c),
{
    c.to_uppercase().collect()
}

/// The characters that `char::to_lowercase` yields for `c`: its lowercase
/// mapping by the Unicode tables of the standard library.
#[verifier::external_body]
fn to_lower(c: char) -> (out: Vec<char>)
    ensures
        out@ == lower_of(c),
{
    c.to_lowercase().collect()
}

/// The lowercase mappings of the characters of `s`, one after another.
pub open spec fn lowered(s: Seq<char>) -> Seq<char>
    decreases s.len(),
{
    if s.len() == 0 {
        s
    } else {
        lowered(s.drop_last()) + lower_of(s.last())
    }
}

/// `s` with its first character in uppercase and the rest in lowercase.
pub open spec fn capitalized(s: Seq<char>) -> Seq<char> {
    if s.len() == 0 {
        s
    } else {
        upper_of(s[0]) + lowered(s.drop_first())
    }
}

/// The control character that opens a colour code.
pub open spec fn colour_mark() -> char {
    '\x03'
}

/// `s` behind the colour code of the digits `a` and `b`.
pub open spec fn coloured(a: char, b: char, s: Seq<char>) -> Seq<char> {
    seq![colour_mark(), a, b] + s
}

/// `s` between `open` and `close` in gray, itself in red.
pub open spec fn enclosed(open: char, close: char, s: Seq<char>) -> Seq<char> {
    coloured('1', '4', seq![open]) + coloured('0', '4', s) + coloured('1', '4', seq![close])
}

/// The texts of `parts`, one after another.
pub open spec fn chained(parts: Seq<Vec<char>>) -> Seq<char>
    decreases parts.len(),
{
    if parts.len() == 0 {
        Seq::empty()
    } else {
        chained(parts.drop_last()) + parts.last()@
    }
}

/// The text that the mappings of the characters of a word make: that of the
/// first character, then those of the others in order.
pub fn assemble(first: &Vec<char>, rest: &Vec<Vec<char>>) -> (out: String)
    ensures
        out@ == first@ + chained(rest@),
{
    let mut out = String::new();
    push_chars(&mut out, first);
    let mut i: usize = 0;
    assert(rest@.take(0) == Seq::<Vec<char>>::empty());
    while i < rest.len()
        invariant
            i <= rest.len(),
            out@ == first@ + chained(rest@.take(i as int)),
        decreases rest.len() - i,
    {
        proof {
            let next = rest@.take(i + 1);
            assert(next.drop_last() == rest@.take(i as int));
            assert(next.last() == rest@[i as int]);
        }
        push_chars(&mut out, &rest[i]);
        i += 1;
    }
    assert(rest@.take(rest.len() as int) == rest@);
    out
}

/// `s` with its first character in uppercase and the rest in lowercase.
pub fn capitalize(s: &str) -> (out: String)
    ensures
        out@ == capitalized(s@),
{
    let chars = chars_of(s);
    if chars.len() == 0 {
        return String::new();
    }
    let first = to_upper(chars[0]);
    let ghost tail = s@.drop_first();
    let mut rest: Vec<Vec<char>> = Vec::new();
    let mut i: usize = 1;
    assert(tail.take(0) == Seq::<char>::empty());
    while i < chars.len()
        invariant
            1 <= i <= chars.len(),
            chars@ == s@,
            tail == s@.drop_first(),
            rest@.len() == i - 1,
            chained(rest@) == lowered(tail.take(i - 1)),
        decreases chars.len() - i,
    {
        proof {
            let next = tail.take(i as int);
            assert(next.drop_last() == tail.take(i - 1));
            assert(next.last() == chars@[i as int]);
        }
        let ghost before = rest@;
        rest.push(to_lower(chars[i]));
        assert(rest@.drop_last() == before);
        i += 1;
    }
    assert(tail.take(chars.len() - 1) == tail);
    assemble(&first, &rest)
}

fn colour(a: char, b: char, s: &str) -> (out: String)
    ensures
        out@ == coloured(a, b, s@),
{
    let mut out = String::new();
    out.push('\x03');
    out.push(a);
    out.push(b);
    out.append(s);
    out
}

fn enclose(open: char, close: char, s: &str) -> (out: String)
    ensures
        out@ == enclosed(open, close, s@),
{
    let mut out = String::new();
    out.push('\x03');
    out.push('1');
    out.push('4');
    out.push(open);
    out.push('\x03');
    out.push('0');
    out.push('4');
    out.append(s);
    out.push('\x03');
    out.push('1');
    out.push('4');
    out.push(close);
    out
}

/// `s` in gray.
pub fn c1(s: &str) -> (out: String)
    ensures
        out@ == coloured('1', '4', s@),
{
    colour('1', '4', s)
}

/// `s` in red.
pub fn c2(s: &str) -> (out: String)
    ensures
        out@ == coloured('0', '4', s@),
{
    colour('0', '4', s)
}

/// `s` in brown.
pub fn c3(s: &str) -> (out: String)
    ensures
        out@ == coloured('0', '5', s@),
{
    colour('0', '5', s)
}

/// `s` in green.
pub fn c4(s: &str) -> (out: String)
    ensures
        out@ == coloured('0', '3', s@),
{
    colour('0', '3', s)
}

/// `s` in orange.
pub fn c5(s: &str) -> (out: String)
    ensures
        out@ == coloured('0', '7', s@),
{
    colour('0', '7', s)
}

/// `s` in red between gray square brackets.
pub fn l(s: &str) -> (out: String)
    ensures
        out@ == enclosed('[', ']', s@),
{
    enclose('[', ']', s)
}

/// `s` in red between gray parentheses.
pub fn p(s: &str) -> (out: String)
    ensures
        out@ == enclosed('(', ')', s@),
{
    enclose('(', ')', s)
}

} // verus!
