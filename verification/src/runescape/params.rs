//! The experience command: up to `PARAM_LIMIT` entries of a skill's table
//! whose name holds the query.

use vstd::prelude::*;
use vstd::string::StringExecFns;
use crate::common::{c1, c2, capitalize, capitalized, coloured};
use crate::runescape::ge::{report, report_text};
use crate::text::{chars_of, string_of, texts};

verus! {

/// The database of the `ini` crate: sections of keys and values. Nothing of
/// its inside is known here.
#[verifier::external_type_specification]
#[verifier::external_body]
pub struct ExIni(ini::Ini);

/// The keys and values of the first section of `db` with the name `name`,
/// in the order they were put in, if there is such a section.
pub uninterp spec fn section_of(db: ini::Ini, name: Seq<char>) -> Option<
    Seq<(Seq<char>, Seq<char>)>,
>;

/// The texts of a list of pairs.
pub open spec fn pairs(list: Seq<(String, String)>) -> Seq<(Seq<char>, Seq<char>)> {
    Seq::new(list.len(), |i: int| (list[i].0@, list[i].1@))
}

/// `ini::Ini::section` with the name `name`, and `Properties::iter` over
/// what it finds: the keys and values of that section, each copied out as
/// it comes.
#[verifier::external_body]
fn section_entries(db: &ini::Ini, name: &str) -> (r: Option<Vec<(String, String)>>)
    ensures
        r is Some <==> section_of(*db, name@) is Some,
        r matches Some(list) ==> pairs(list@) == section_of(*db, name@)->0,
{
    db.section(Some(name)).map(|s| s.iter().map(|(k, v)| (k.to_string(), v.to_string())).collect())
}

/// The number of entries that one answer holds at most.
pub const PARAM_LIMIT: usize = 10;

/// `c` in lowercase if it is an ASCII capital, else `c`.
pub open spec fn lower_ascii(c: char) -> char {
    if 'A' <= c <= 'Z' {
        ((c as u8) + 32u8) as char
    } else {
        c
    }
}

/// `s` with `f` applied to each character.
pub open spec fn mapped(s: Seq<char>, f: spec_fn(char) -> char) -> Seq<char> {
    Seq::new(s.len(), |i: int| f(s[i]))
}

/// `s` with its ASCII capitals in lowercase.
pub open spec fn lowered_ascii(s: Seq<char>) -> Seq<char> {
    mapped(s, |c: char| lower_ascii(c))
}

/// `s` with every `from` replaced by `to`.
pub open spec fn replaced(s: Seq<char>, from: char, to: char) -> Seq<char> {
    mapped(
        s,
        |c: char|
            if c == from {
                to
            } else {
                c
            },
    )
}

/// Whether `part` occurs in `whole`.
pub open spec fn occurs_in(part: Seq<char>, whole: Seq<char>) -> bool {
    exists|i: int|
        0 <= i && i + part.len() <= whole.len() && #[trigger] whole.subrange(i, i + part.len())
            == part
}

/// Whether the table entry `key` answers the query `param`: its name holds
/// the query, spaces standing for underscores and the case of ASCII letters
/// set aside.
pub open spec fn answers(key: Seq<char>, param: Seq<char>) -> bool {
    occurs_in(lowered_ascii(replaced(param, ' ', '_')), lowered_ascii(key))
}

/// The entry of one table row.
pub open spec fn param_entry(key: Seq<char>, value: Seq<char>) -> Seq<char> {
    coloured('1', '4', replaced(key, '_', ' ')) + ": "@ + coloured('0', '4', value + "xp"@)
}

/// The entries of the first rows of `rows`, at most `limit`, that answer
/// `param`.
pub open spec fn param_entries(rows: Seq<(Seq<char>, Seq<char>)>, param: Seq<char>, limit: nat)
    -> Seq<Seq<char>>
    decreases rows.len(),
{
    if rows.len() == 0 {
        Seq::empty()
    } else {
        let before = param_entries(rows.drop_last(), param, limit);
        if before.len() < limit && answers(rows.last().0, param) {
            before.push(param_entry(rows.last().0, rows.last().1))
        } else {
            before
        }
    }
}

/// `s` with its ASCII capitals in lowercase, as characters.
pub fn to_lower_ascii(s: &str) -> (out: Vec<char>)
    ensures
        out@ == lowered_ascii(s@),
{
    let chars = chars_of(s);
    let mut out: Vec<char> = Vec::new();
    let mut i: usize = 0;
    while i < chars.len()
        invariant
            i <= chars.len(),
            chars@ == s@,
            out@ == lowered_ascii(s@).take(i as int),
        decreases chars.len() - i,
    {
        let c = chars[i];
        let low = if 'A' <= c && c <= 'Z' {
            ((c as u8) + 32u8) as char
        } else {
            c
        };
        out.push(low);
        i += 1;
    }
    out
}

/// `s` with every `from` replaced by `to`, as characters.
pub fn replace_char(s: &Vec<char>, from: char, to: char) -> (out: Vec<char>)
    ensures
        out@ == replaced(s@, from, to),
{
    let mut out: Vec<char> = Vec::new();
    let mut i: usize = 0;
    while i < s.len()
        invariant
            i <= s.len(),
            out@ == replaced(s@, from, to).take(i as int),
        decreases s.len() - i,
    {
        out.push(
            if s[i] == from {
                to
            } else {
                s[i]
            },
        );
        i += 1;
    }
    out
}

/// Whether `part` occurs in `whole`.
pub fn contains(whole: &Vec<char>, part: &Vec<char>) -> (r: bool)
    ensures
        r == occurs_in(part@, whole@),
{
    if part.len() > whole.len() {
        assert forall|i: int| 0 <= i && i + part.len() <= whole.len() implies #[trigger] whole@.subrange(
            i,
            i + part.len(),
        ) != part@ by {}
        return false;
    }
    let last = whole.len() - part.len();
    let mut i: usize = 0;
    while i <= last
        invariant
            i <= last + 1,
            last == whole.len() - part.len(),
            forall|k: int| 0 <= k < i ==> #[trigger] whole@.subrange(k, k + part.len()) != part@,
        decreases last + 1 - i,
    {
        let mut j: usize = 0;
        while j < part.len() && whole[i + j] == part[j]
            invariant
                j <= part.len(),
                i <= last == whole.len() - part.len(),
                forall|k: int| 0 <= k < j ==> whole@[i + k] == part@[k],
            decreases part.len() - j,
        {
            j += 1;
        }
        if j == part.len() {
            assert(whole@.subrange(i as int, i + part.len()) == part@);
            return true;
        }
        assert(whole@.subrange(i as int, i + part.len())[j as int] != part@[j as int]);
        i += 1;
    }
    false
}

/// The entry of one table row.
pub fn param_line(key: &str, value: &str) -> (out: String)
    ensures
        out@ == param_entry(key@, value@),
{
    let key_chars = chars_of(key);
    let spaced = replace_char(&key_chars, '_', ' ');
    let label = string_of(&spaced, 0, spaced.len());
    assert(label@ == spaced@);
    let mut amount = String::new();
    amount.append(value);
    amount.append("xp");
    let mut out = c1(label.as_str());
    out.append(": ");
    out.append(c2(amount.as_str()).as_str());
    out
}

/// The answer of the experience command, from the rows of the skill's
/// table: the first `PARAM_LIMIT` rows that answer `param`, behind the name
/// of the skill. Without such a row there is no answer.
pub fn params_from(rows: &Vec<(String, String)>, skill: &str, param: &str) -> (r: Result<
    String,
    (),
>)
    ensures
        r is Ok <==> param_entries(pairs(rows@), param@, PARAM_LIMIT as nat).len() > 0,
        r matches Ok(out) ==> out@ == report_text(
            capitalized(skill@),
            param_entries(pairs(rows@), param@, PARAM_LIMIT as nat),
        ),
{
    let param_chars = chars_of(param);
    let underscored = replace_char(&param_chars, ' ', '_');
    let wanted = string_of(&underscored, 0, underscored.len());
    assert(wanted@ == underscored@);
    let needle = to_lower_ascii(wanted.as_str());
    let mut found: Vec<String> = Vec::new();
    let mut i: usize = 0;
    assert(pairs(rows@).take(0) == Seq::<(Seq<char>, Seq<char>)>::empty());
    while i < rows.len()
        invariant
            i <= rows.len(),
            needle@ == lowered_ascii(replaced(param@, ' ', '_')),
            texts(found@) == param_entries(pairs(rows@).take(i as int), param@, PARAM_LIMIT as nat),
        decreases rows.len() - i,
    {
        proof {
            let next = pairs(rows@).take(i + 1);
            assert(next.drop_last() == pairs(rows@).take(i as int));
            assert(next.last() == (rows@[i as int].0@, rows@[i as int].1@));
        }
        if found.len() < PARAM_LIMIT {
            let key = to_lower_ascii(rows[i].0.as_str());
            if contains(&key, &needle) {
                let ghost before = texts(found@);
                found.push(param_line(rows[i].0.as_str(), rows[i].1.as_str()));
                assert(texts(found@) == before.push(found@.last()@));
            }
        }
        i += 1;
    }
    assert(pairs(rows@).take(rows.len() as int) == pairs(rows@));
    report(capitalize(skill).as_str(), &found)
}

/// The answer of the experience command: the rows of the section of `skill`,
/// capitalised, in `database` that answer `param`. It fails where the
/// database has no such section, and where no row answers.
pub fn params(database: &ini::Ini, skill: &str, param: &str) -> (r: Result<String, ()>)
    ensures
        r is Ok <==> (section_of(*database, capitalized(skill@)) matches Some(rows)
            && param_entries(rows, param@, PARAM_LIMIT as nat).len() > 0),
        r matches Ok(out) ==> out@ == report_text(
            capitalized(skill@),
            param_entries(
                section_of(*database, capitalized(skill@))->0,
                param@,
                PARAM_LIMIT as nat,
            ),
        ),
{
    match section_entries(database, capitalize(skill).as_str()) {
        Some(rows) => params_from(&rows, skill, param),
        None => Err(()),
    }
}

} // verus!
