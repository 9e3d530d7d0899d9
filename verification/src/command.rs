//! The command grammar.
//!
//! A message is a command when it consists of a sign, `+` or `-`, a name of
//! one or more ASCII letters, digits or hyphens, and then either nothing, or
//! whitespace followed by a parameter that holds no line feed. Names are
//! case-sensitive: a name is handed on exactly as it was written.

use vstd::prelude::*;
use crate::text::{chars_of, string_of, trim, trim_range, white_space};

verus! {

/// The two characters that open a command.
pub open spec fn is_sign(c: char) -> bool {
    c == '+' || c == '-'
}

/// The characters of a command name.
pub open spec fn is_name_char(c: char) -> bool {
    let u = c as u32;
    ||| 0x30 <= u <= 0x39
    ||| 0x41 <= u <= 0x5A
    ||| 0x61 <= u <= 0x7A
    ||| u == 0x2D
}

/// `text` read as a sign, a name that ends before `e`, whitespace up to `k`,
/// and a parameter from `k` on.
pub open spec fn reads_as(text: Seq<char>, e: int, k: int) -> bool {
    &&& 2 <= e <= k <= text.len()
    &&& is_sign(text[0])
    &&& forall|i: int| 1 <= i < e ==> is_name_char(#[trigger] text[i])
    &&& if e == k {
        k == text.len()
    } else {
        &&& forall|i: int| e <= i < k ==> white_space(#[trigger] text[i])
        &&& forall|i: int| k <= i < text.len() ==> #[trigger] text[i] != '\n'
    }
}

/// Whether `text` is a command.
pub open spec fn is_command(text: Seq<char>) -> bool {
    exists|e: int, k: int| reads_as(text, e, k)
}

/// The first index from `from` on that holds no name character.
pub open spec fn name_end(text: Seq<char>, from: int) -> int
    decreases text.len() - from,
{
    if 0 <= from < text.len() && is_name_char(text[from]) {
        name_end(text, from + 1)
    } else {
        from
    }
}

/// The name of the command `text`.
pub open spec fn command_name(text: Seq<char>) -> Seq<char> {
    text.subrange(1, name_end(text, 1))
}

/// The parameter of the command `text`: what follows the name, trimmed.
pub open spec fn command_parameter(text: Seq<char>) -> Seq<char> {
    trim(text.skip(name_end(text, 1)))
}

/// A parsed command.
#[derive(Debug, PartialEq, Eq)]
pub struct Command {
    pub sign: char,
    pub name: String,
    pub parameter: String,
}

/// Whether `c` can stand in a command name.
pub fn is_name(c: char) -> (b: bool)
    ensures
        b == is_name_char(c),
{
    let u: u32 = c as u32;
    (0x30 <= u && u <= 0x39) || (0x41 <= u && u <= 0x5A) || (0x61 <= u && u <= 0x7A) || u == 0x2D
}

/// Where a run of name characters ends is where `name_end` says.
proof fn lemma_name_end(text: Seq<char>, from: int, e: int)
    requires
        0 <= from <= e <= text.len(),
        forall|i: int| from <= i < e ==> is_name_char(#[trigger] text[i]),
        e == text.len() || !is_name_char(text[e]),
    ensures
        name_end(text, from) == e,
    decreases e - from,
{
    if from < e {
        lemma_name_end(text, from + 1, e);
    }
}

/// A text can be read as a command in one way only, up to the place where
/// the parameter is taken to begin.
proof fn lemma_one_reading(text: Seq<char>, e: int, a: int, e2: int, k2: int)
    requires
        1 <= e <= a <= text.len(),
        forall|i: int| 1 <= i < e ==> is_name_char(#[trigger] text[i]),
        e == text.len() || !is_name_char(text[e]),
        forall|i: int| e <= i < a ==> white_space(#[trigger] text[i]),
        a == text.len() || !white_space(text[a]),
        reads_as(text, e2, k2),
    ensures
        e2 == e,
        k2 <= a,
{
    if e2 > e {
        assert(is_name_char(text[e]));
    }
    if e2 < e {
        assert(is_name_char(text[e2]));
        assert(white_space(text[e2]));
    }
    if k2 > a {
        assert(white_space(text[a]));
    }
}

/// Parses `text` by the command grammar.
pub fn parse_command(text: &str) -> (r: Option<Command>)
    ensures
        r is Some <==> is_command(text@),
        r matches Some(c) ==> {
            &&& c.sign == text@[0]
            &&& c.name@ == command_name(text@)
            &&& c.parameter@ == command_parameter(text@)
        },
{
    let chars = chars_of(text);
    let n = chars.len();
    if n < 2 {
        return None;
    }
    let sign = chars[0];
    if sign != '+' && sign != '-' {
        return None;
    }
    let mut e: usize = 1;
    while e < n && is_name(chars[e])
        invariant
            1 <= e <= n == chars.len(),
            forall|i: int| 1 <= i < e ==> is_name_char(#[trigger] chars@[i]),
        decreases n - e,
    {
        e += 1;
    }
    proof {
        lemma_name_end(chars@, 1, e as int);
    }
    let (a, b) = trim_range(&chars, e, n);
    proof {
        assert forall|e2: int, k2: int| reads_as(chars@, e2, k2) implies e2 == e && k2 <= a by {
            lemma_one_reading(chars@, e as int, a as int, e2, k2);
        }
    }
    if e < 2 {
        return None;
    }
    if e < n {
        if a == e {
            return None;
        }
        let mut j: usize = a;
        while j < n
            invariant
                a <= j <= n == chars.len(),
                chars@ == text@,
                e < a,
                forall|e2: int, k2: int| reads_as(chars@, e2, k2) ==> e2 == e && k2 <= a,
                forall|i: int| a <= i < j ==> #[trigger] chars@[i] != '\n',
            decreases n - j,
        {
            if chars[j] == '\n' {
                return None;
            }
            j += 1;
        }
    }
    proof {
        assert(reads_as(chars@, e as int, a as int));
        assert(chars@.subrange(e as int, n as int) == chars@.skip(e as int));
    }
    Some(Command { sign, name: string_of(&chars, 1, e), parameter: string_of(&chars, a, b) })
}

} // verus!
