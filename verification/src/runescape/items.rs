//! The data that the price commands work on.

use vstd::prelude::*;
use std::collections::HashMap;

verus! {

/// One entry of the item list: the number of an item and its name.
#[derive(Debug, PartialEq, Eq)]
pub struct Mapping {
    pub id: u32,
    pub name: String,
}

impl Clone for Mapping {
    fn clone(&self) -> (out: Mapping)
        ensures
            out == *self,
    {
        Mapping { id: self.id, name: self.name.clone() }
    }
}

/// The latest prices, by item number.
#[derive(Debug)]
pub struct Data {
    pub data: HashMap<u32, Price>,
}

/// The latest high and low price of one item, where known.
#[derive(Clone, Copy, Debug, PartialEq, Eq, Structural)]
pub struct Price {
    pub high: Option<u32>,
    pub low: Option<u32>,
}

/// Whether a price is unknown.
pub fn is_none(field: &Option<u32>) -> (r: bool)
    ensures
        r == (*field is None),
{
    match field {
        None => true,
        Some(_) => false,
    }
}

/// The answer of the exchange about one item.
#[derive(Debug, PartialEq, Eq)]
pub struct Ge<'a> {
    pub item: GeItem<'a>,
}

/// The details of one item.
#[derive(Debug, PartialEq, Eq)]
pub struct GeItem<'a> {
    pub icon: String,
    pub icon_large: String,
    pub id: u32,
    pub item_type: String,
    pub type_icon: String,
    pub name: String,
    pub description: String,
    pub current: GeItemPrice<'a>,
    pub today: GeItemPrice<'a>,
    pub members: String,
}

/// A price and where it is heading.
#[derive(Debug, PartialEq, Eq)]
pub struct GeItemPrice<'a> {
    pub trend: String,
    pub price: StrOrNum<'a>,
}

/// A price as the exchange gives it: a number, or a text such as `10.2k`.
#[derive(Clone, Copy, Debug, PartialEq, Eq)]
pub enum StrOrNum<'a> {
    Str(&'a str),
    Num(u32),
}

} // verus!
