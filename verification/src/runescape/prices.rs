//! The price command: up to `PRICE_LIMIT` items whose name matches the
//! query, each with its latest high price.

use vstd::prelude::*;
use vstd::string::StringExecFns;
use crate::common::{c1, c2, coloured};
use crate::runescape::ge::{case_blind, first_matches, matching_items, report, report_text};
use crate::runescape::items::{Data, Mapping, Price};
use crate::runescape::numbers::{grouped, with_commas};
use crate::text::texts;
use crate::triggers::regex_compiles;

verus! {

broadcast use vstd::std_specs::hash::group_hash_axioms;

/// The number of items that one answer holds at most.
pub const PRICE_LIMIT: usize = 10;

/// The entry of one item: its name and its high price, 0 where none is
/// known.
pub open spec fn price_entry(name: Seq<char>, price: Price) -> Seq<char> {
    coloured('1', '4', name) + ": "@ + coloured(
        '0',
        '4',
        match price.high {
            Some(v) => grouped(v as nat),
            None => "0"@,
        },
    ) + coloured('1', '4', "gp"@)
}

/// The entries of `items`, if each of them has a price in `data`.
pub open spec fn price_entries(items: Seq<Mapping>, data: Map<u32, Price>) -> Option<
    Seq<Seq<char>>,
>
    decreases items.len(),
{
    if items.len() == 0 {
        Some(Seq::empty())
    } else {
        match price_entries(items.drop_last(), data) {
            Some(before) => if data.contains_key(items.last().id) {
                Some(before.push(price_entry(items.last().name@, data[items.last().id])))
            } else {
                None
            },
            None => None,
        }
    }
}

/// The entry of one item.
pub fn price_line(name: &str, price: &Price) -> (out: String)
    ensures
        out@ == price_entry(name@, *price),
{
    let mut out = c1(name);
    out.append(": ");
    match price.high {
        Some(v) => out.append(c2(with_commas(v).as_str()).as_str()),
        None => out.append(c2("0").as_str()),
    }
    out.append(c1("gp").as_str());
    out
}

/// The answer of the price command, from the items found. It fails where an
/// item has no price in `data`, and where no item was found.
pub fn prices_of(items: &Vec<Mapping>, data: &Data) -> (r: Result<String, ()>)
    ensures
        r is Ok <==> items@.len() > 0 && price_entries(items@, data.data@) is Some,
        r matches Ok(out) ==> out@ == report_text(
            "Price"@,
            price_entries(items@, data.data@)->0,
        ),
{
    let mut entries: Vec<String> = Vec::new();
    let mut i: usize = 0;
    assert(items@.take(0) == Seq::<Mapping>::empty());
    while i < items.len()
        invariant
            i <= items.len(),
            entries@.len() == i,
            price_entries(items@.take(i as int), data.data@) == Some(texts(entries@)),
        decreases items.len() - i,
    {
        proof {
            let next = items@.take(i + 1);
            assert(next.drop_last() == items@.take(i as int));
            assert(next.last() == items@[i as int]);
        }
        match data.data.get(&items[i].id) {
            Some(price) => {
                let ghost before = texts(entries@);
                entries.push(price_line(items[i].name.as_str(), price));
                assert(texts(entries@) == before.push(entries@.last()@));
            },
            None => {
                proof {
                    lemma_entries_fail(items@, i + 1, data.data@);
                }
                return Err(());
            },
        }
        i += 1;
    }
    assert(items@.take(items.len() as int) == items@);
    report("Price", &entries)
}

/// Where a prefix of the items has no entries, the items have none.
proof fn lemma_entries_fail(items: Seq<Mapping>, k: int, data: Map<u32, Price>)
    requires
        0 <= k <= items.len(),
        price_entries(items.take(k), data) is None,
    ensures
        price_entries(items, data) is None,
    decreases items.len() - k,
{
    if k == items.len() {
        assert(items.take(k) == items);
    } else {
        assert(items.take(k + 1).drop_last() == items.take(k));
        lemma_entries_fail(items, k + 1, data);
    }
}

/// The answer of the price command: the first `PRICE_LIMIT` items of
/// `mapping` whose name holds a match of `query`, each with its high price
/// from `data`. It fails where `query` is no regular expression, where no
/// name matches, and where one of the items has no price.
pub fn prices(query: &str, mapping: &Vec<Mapping>, data: &Data) -> (r: Result<String, ()>)
    ensures
        r is Ok <==> {
            let items = first_matches(case_blind(query@), mapping@, PRICE_LIMIT as nat);
            &&& regex_compiles(case_blind(query@))
            &&& items.len() > 0
            &&& price_entries(items, data.data@) is Some
        },
        r matches Ok(out) ==> out@ == report_text(
            "Price"@,
            price_entries(
                first_matches(case_blind(query@), mapping@, PRICE_LIMIT as nat),
                data.data@,
            )->0,
        ),
{
    match matching_items(query, mapping, PRICE_LIMIT) {
        Some(items) => prices_of(&items, data),
        None => Err(()),
    }
}

} // verus!
