//! The player count command: reading the counts out of what the game's
//! sites send. The arithmetic on the counts is the host's.

use vstd::prelude::*;
use crate::runescape::ge::{remove_char, without_char};
use crate::text::{chars_of, split, split_chars, string_of, texts};
use crate::triggers::{capture, regex_capture, regex_compiles};

verus! {

/// The pattern of the line that tells how many people play.
pub open spec fn count_pattern() -> Seq<char> {
    "<p class='player-count'>There are currently ([\\d,]+) people playing!</p>"@
}

/// What stands for the count in a page: the digits and commas that the
/// line of `count_pattern` holds, if the page has such a line.
pub open spec fn page_count(page: Seq<char>) -> Option<Seq<char>> {
    if regex_compiles(count_pattern()) {
        regex_capture(count_pattern(), page, 1)
    } else {
        None
    }
}

/// The count that a page shows, as it is written there.
pub fn player_count(page: &str) -> (r: Option<String>)
    ensures
        r is Some <==> page_count(page@) is Some,
        r matches Some(s) ==> page_count(page@) == Some(s@),
{
    match capture(
        "<p class='player-count'>There are currently ([\\d,]+) people playing!</p>",
        page,
        1,
    ) {
        Some(found) => found,
        None => None,
    }
}

/// What stands between the first and the second `(` of `text` without its
/// last two characters, if it holds a `(`.
pub open spec fn callback_text(text: Seq<char>) -> Option<Seq<char>> {
    let body = text.take(
        if text.len() >= 2 {
            text.len() - 2
        } else {
            0
        },
    );
    let pieces = split(body, '(');
    if pieces.len() >= 2 {
        Some(pieces[1])
    } else {
        None
    }
}

/// The argument of a callback such as `name(127551);`: the text between the
/// first `(` and the closing `);`.
pub fn callback_argument(text: &str) -> (r: Option<String>)
    ensures
        r is Some <==> callback_text(text@) is Some,
        r matches Some(s) ==> callback_text(text@) == Some(s@),
{
    let chars = chars_of(text);
    let end = if chars.len() >= 2 {
        chars.len() - 2
    } else {
        0
    };
    let body = string_of(&chars, 0, end);
    let body_chars = chars_of(body.as_str());
    let pieces = split_chars(&body_chars, '(');
    if pieces.len() >= 2 {
        assert(texts(pieces@)[1] == pieces@[1]@);
        Some(pieces[1].clone())
    } else {
        None
    }
}

/// The digits of a count: the text without its commas.
pub fn count_digits(text: &str) -> (out: String)
    ensures
        out@ == without_char(text@, ','),
{
    remove_char(text, ',')
}

} // verus!
