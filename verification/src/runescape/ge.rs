//! The exchange command: up to `GE_LIMIT` items whose name matches the
//! query, each with its current price and today's change.

use vstd::prelude::*;
use vstd::string::StringExecFns;
use crate::common::{c1, c2, c3, c4, c5, coloured, enclosed, l, p};
use crate::runescape::items::{Ge, GeItem, GeItemPrice, Mapping, StrOrNum};
use crate::runescape::numbers::{decimal, to_decimal};
use crate::text::{chars_of, join, join_strings, same_text, texts};
use crate::triggers::{find, regex_compiles, search_result, Search};

verus! {

/// The number of items that one answer holds at most.
pub const GE_LIMIT: usize = 6;

/// The text of a price.
pub open spec fn price_text(price: StrOrNum) -> Seq<char> {
    match price {
        StrOrNum::Str(s) => s@,
        StrOrNum::Num(n) => decimal(n as nat),
    }
}

/// `s` without the character `c`.
pub open spec fn without_char(s: Seq<char>, c: char) -> Seq<char>
    decreases s.len(),
{
    if s.len() == 0 {
        s
    } else if s.last() == c {
        without_char(s.drop_last(), c)
    } else {
        without_char(s.drop_last(), c).push(s.last())
    }
}

/// The pattern that finds `query` in a name whatever the case of its
/// letters.
pub open spec fn case_blind(query: Seq<char>) -> Seq<char> {
    "(?i)"@ + query
}

/// The change of a price: the price and an arrow in the colour of its
/// trend, a falling price without its spaces, and nothing for a trend that
/// is not known.
pub open spec fn change_text(trend: Seq<char>, price: Seq<char>) -> Seq<char> {
    if trend == "neutral"@ {
        coloured('0', '7', price) + coloured('0', '7', seq!['\u{25ac}'])
    } else if trend == "positive"@ {
        coloured('0', '3', price) + coloured('0', '3', seq!['\u{25b2}'])
    } else if trend == "negative"@ {
        coloured('0', '5', without_char(price, ' ')) + coloured('0', '5', seq!['\u{25bc}'])
    } else {
        Seq::empty()
    }
}

/// The first items of `mapping`, at most `limit`, whose name `pattern`
/// matches in.
pub open spec fn first_matches(pattern: Seq<char>, mapping: Seq<Mapping>, limit: nat) -> Seq<
    Mapping,
>
    decreases mapping.len(),
{
    if mapping.len() == 0 {
        Seq::empty()
    } else {
        let before = first_matches(pattern, mapping.drop_last(), limit);
        if before.len() < limit && search_result(pattern, mapping.last().name@)
            == Search::Found {
            before.push(mapping.last())
        } else {
            before
        }
    }
}

/// The text of a price.
pub fn str_from_enum(price: StrOrNum) -> (out: String)
    ensures
        out@ == price_text(price),
{
    match price {
        StrOrNum::Str(s) => s.to_owned(),
        StrOrNum::Num(n) => to_decimal(n),
    }
}

/// `s` without the character `c`.
pub fn remove_char(s: &str, c: char) -> (out: String)
    ensures
        out@ == without_char(s@, c),
{
    let chars = chars_of(s);
    let mut out = String::new();
    let mut i: usize = 0;
    assert(s@.take(0) == Seq::<char>::empty());
    while i < chars.len()
        invariant
            i <= chars.len(),
            chars@ == s@,
            out@ == without_char(s@.take(i as int), c),
        decreases chars.len() - i,
    {
        proof {
            assert(s@.take(i + 1).drop_last() == s@.take(i as int));
        }
        if chars[i] != c {
            out.push(chars[i]);
        }
        i += 1;
    }
    assert(s@.take(chars.len() as int) == s@);
    out
}

fn arrow(c: char) -> (out: String)
    ensures
        out@ == seq![c],
{
    let mut out = String::new();
    out.push(c);
    out
}

/// Today's change of a price, in parentheses.
pub fn price_change(today: &GeItemPrice) -> (out: String)
    ensures
        out@ == enclosed('(', ')', change_text(today.trend@, price_text(today.price))),
{
    let mut output = String::new();
    let trend = today.trend.as_str();
    let price = str_from_enum(today.price);
    if same_text(trend, "neutral") {
        output = c5(price.as_str());
        output.append(c5(arrow('\u{25ac}').as_str()).as_str());
    } else if same_text(trend, "positive") {
        output = c4(price.as_str());
        output.append(c4(arrow('\u{25b2}').as_str()).as_str());
    } else if same_text(trend, "negative") {
        output = c3(remove_char(price.as_str(), ' ').as_str());
        output.append(c3(arrow('\u{25bc}').as_str()).as_str());
    }
    p(output.as_str())
}

/// The pattern that finds `query` whatever the case of its letters.
pub fn case_blind_pattern(query: &str) -> (out: String)
    ensures
        out@ == case_blind(query@),
{
    let mut out = String::new();
    out.append("(?i)");
    out.append(query);
    out
}

/// The first items of `mapping`, at most `limit`, whose name holds a match
/// of `query`, read as a regular expression and whatever the case of its
/// letters. Nothing where `query` is no regular expression.
pub fn matching_items(query: &str, mapping: &Vec<Mapping>, limit: usize) -> (r: Option<
    Vec<Mapping>,
>)
    ensures
        r is Some <==> regex_compiles(case_blind(query@)),
        r matches Some(found) ==> found@ == first_matches(
            case_blind(query@),
            mapping@,
            limit as nat,
        ),
{
    let pattern = case_blind_pattern(query);
    match find(pattern.as_str(), "") {
        Search::Refused => {
            return None;
        },
        _ => {},
    }
    let mut found: Vec<Mapping> = Vec::new();
    let mut i: usize = 0;
    assert(mapping@.take(0) == Seq::<Mapping>::empty());
    while i < mapping.len()
        invariant
            i <= mapping.len(),
            pattern@ == case_blind(query@),
            found@ == first_matches(pattern@, mapping@.take(i as int), limit as nat),
        decreases mapping.len() - i,
    {
        proof {
            let next = mapping@.take(i + 1);
            assert(next.drop_last() == mapping@.take(i as int));
            assert(next.last() == mapping@[i as int]);
        }
        if found.len() < limit {
            match find(pattern.as_str(), mapping[i].name.as_str()) {
                Search::Found => {
                    found.push(mapping[i].clone());
                },
                _ => {},
            }
        }
        i += 1;
    }
    assert(mapping@.take(mapping.len() as int) == mapping@);
    Some(found)
}

/// The entry of one item: its name, its current price and today's change.
pub open spec fn entry_text(name: Seq<char>, item: GeItem) -> Seq<char> {
    coloured('1', '4', name) + ": "@ + coloured('0', '4', price_text(item.current.price))
        + coloured('1', '4', "gp"@) + seq![' '] + enclosed(
        '(',
        ')',
        change_text(item.today.trend@, price_text(item.today.price)),
    )
}

/// The entry of one item.
pub fn ge_entry(name: &str, item: &GeItem) -> (out: String)
    ensures
        out@ == entry_text(name@, *item),
{
    let mut out = c1(name);
    out.append(": ");
    out.append(c2(str_from_enum(item.current.price).as_str()).as_str());
    out.append(c1("gp").as_str());
    out.push(' ');
    out.append(price_change(&item.today).as_str());
    out
}

/// The separator between the entries of an answer.
pub open spec fn bar() -> Seq<char> {
    coloured('1', '4', " | "@)
}

/// An answer: the entries behind the label `title`.
pub open spec fn report_text(title: Seq<char>, entries: Seq<Seq<char>>) -> Seq<char> {
    enclosed('[', ']', title) + seq![' '] + join(entries, bar())
}

/// Puts `entries` behind the label `title`. Without entries there is no
/// answer.
pub fn report(title: &str, entries: &Vec<String>) -> (r: Result<String, ()>)
    ensures
        r is Ok <==> entries@.len() > 0,
        r matches Ok(out) ==> out@ == report_text(title@, texts(entries@)),
{
    if entries.len() == 0 {
        return Err(());
    }
    let mut out = l(title);
    out.push(' ');
    out.append(join_strings(entries, c1(" | ").as_str()).as_str());
    Ok(out)
}

/// The entries of the items found: each name with the details that the
/// exchange gave for it.
pub open spec fn ge_entries(found: Seq<(String, Ge)>) -> Seq<Seq<char>> {
    Seq::new(found.len(), |i: int| entry_text(found[i].0@, found[i].1.item))
}

/// The answer of the exchange command, from the names of the items found
/// and what the exchange said of each. Without items there is no answer.
pub fn ge(found: &Vec<(String, Ge)>) -> (r: Result<String, ()>)
    ensures
        r is Ok <==> found@.len() > 0,
        r matches Ok(out) ==> out@ == report_text("Grand Exchange"@, ge_entries(found@)),
{
    let mut entries: Vec<String> = Vec::new();
    let mut i: usize = 0;
    while i < found.len()
        invariant
            i <= found.len(),
            texts(entries@) == ge_entries(found@).take(i as int),
        decreases found.len() - i,
    {
        let ghost before = texts(entries@);
        entries.push(ge_entry(found[i].0.as_str(), &found[i].1.item));
        assert(texts(entries@) == before.push(entries@.last()@));
        i += 1;
    }
    assert(ge_entries(found@).take(found.len() as int) == ge_entries(found@));
    report("Grand Exchange", &entries)
}

} // verus!
