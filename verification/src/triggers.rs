//! Trigger patterns.
//!
//! A module names the commands it handles by regular expressions, which the
//! `regex` crate compiles and runs. What a pattern matches is that crate's to
//! say: here it has a name, and the rest of the library is proved against it.

use vstd::prelude::*;
use crate::text::texts;

verus! {

/// Whether `regex::Regex::new` accepts `pattern`.
pub uninterp spec fn regex_compiles(pattern: Seq<char>) -> bool;

/// What the capture group `group` holds in the first match of the regular
/// expression compiled from `pattern` in `text`, as `regex::Regex::captures`
/// and `Captures::get` tell: nothing where there is no match, or where the
/// group took no part in it. The group 0 is the whole match.
pub uninterp spec fn regex_capture(pattern: Seq<char>, text: Seq<char>, group: nat) -> Option<
    Seq<char>,
>;

/// Compiles `pattern` with `regex::Regex::new` and, where that succeeds,
/// takes the group `group` of the first match in `text` with
/// `Regex::captures` and `Captures::get`. Each depends on its arguments
/// alone. The outer result is `None` exactly where the pattern is refused: it
/// is malformed, or its program would exceed the crate's default size limit.
#[verifier::external_body]
pub(crate) fn capture(pattern: &str, text: &str, group: usize) -> (r: Option<Option<String>>)
    ensures
        r is Some <==> regex_compiles(pattern@),
        r matches Some(Some(s)) ==> regex_capture(pattern@, text@, group as nat) == Some(s@),
        r matches Some(None) ==> regex_capture(pattern@, text@, group as nat) is None,
{
    match regex::Regex::new(pattern) {
        Ok(re) => Some(re.captures(text).and_then(|c| c.get(group)).map(|m| m.as_str().to_string())),
        Err(_) => None,
    }
}

/// Whether the regular expression compiled from `pattern` has a match
/// somewhere in `text`.
pub open spec fn regex_matches(pattern: Seq<char>, text: Seq<char>) -> bool {
    regex_capture(pattern, text, 0) is Some
}

/// Whether `pattern` is a regular expression that matches in `text`.
pub open spec fn pattern_found(pattern: Seq<char>, text: Seq<char>) -> bool {
    regex_compiles(pattern) && regex_matches(pattern, text)
}

/// Whether one of `patterns` matches in `text`. A pattern that does not
/// compile matches nothing.
pub open spec fn any_found(patterns: Seq<Seq<char>>, text: Seq<char>) -> bool {
    exists|i: int| 0 <= i < patterns.len() && pattern_found(#[trigger] patterns[i], text)
}

/// What a search gave: the pattern was refused, or it was searched for.
#[derive(Clone, Copy, Debug, PartialEq, Eq, Structural)]
pub enum Search {
    Refused,
    Found,
    Absent,
}

/// What searching `text` for `pattern` gives.
pub open spec fn search_result(pattern: Seq<char>, text: Seq<char>) -> Search {
    if !regex_compiles(pattern) {
        Search::Refused
    } else if regex_matches(pattern, text) {
        Search::Found
    } else {
        Search::Absent
    }
}

/// Searches `text` for the regular expression `pattern`.
pub fn find(pattern: &str, text: &str) -> (r: Search)
    ensures
        r == search_result(pattern@, text@),
{
    match capture(pattern, text, 0) {
        None => Search::Refused,
        Some(Some(_)) => Search::Found,
        Some(None) => Search::Absent,
    }
}

/// What searching `text` for each of `patterns` gives.
pub open spec fn search_results(patterns: Seq<Seq<char>>, text: Seq<char>) -> Seq<Search> {
    Seq::new(patterns.len(), |i: int| search_result(patterns[i], text))
}

/// Searches `text` for each of `patterns`.
pub fn find_each(patterns: &Vec<String>, text: &str) -> (out: Vec<Search>)
    ensures
        out@ == search_results(texts(patterns@), text@),
{
    let mut out: Vec<Search> = Vec::new();
    let mut i: usize = 0;
    while i < patterns.len()
        invariant
            i <= patterns.len(),
            out@ == search_results(texts(patterns@), text@).take(i as int),
        decreases patterns.len() - i,
    {
        out.push(find(patterns[i].as_str(), text));
        i += 1;
    }
    out
}

/// Whether one of the searches found a match.
pub fn any_hit(results: &Vec<Search>) -> (r: bool)
    ensures
        r == exists|i: int| 0 <= i < results.len() && #[trigger] results@[i] == Search::Found,
{
    let mut i: usize = 0;
    while i < results.len()
        invariant
            i <= results.len(),
            forall|k: int| 0 <= k < i ==> #[trigger] results@[k] != Search::Found,
        decreases results.len() - i,
    {
        if results[i] == Search::Found {
            return true;
        }
        i += 1;
    }
    false
}

/// Whether one of `patterns` matches in `text`.
pub fn any_matches(patterns: &Vec<String>, text: &str) -> (r: bool)
    ensures
        r == any_found(texts(patterns@), text@),
{
    let results = find_each(patterns, text);
    let r = any_hit(&results);
    proof {
        let ps = texts(patterns@);
        if r {
            let i = choose|i: int| 0 <= i < results.len() && #[trigger] results@[i] == Search::Found;
            assert(pattern_found(ps[i], text@));
        }
        if any_found(ps, text@) {
            let i = choose|i: int| 0 <= i < ps.len() && pattern_found(#[trigger] ps[i], text@);
            assert(results@[i] == Search::Found);
        }
    }
    r
}

} // verus!
