//! Entries of benchmarks that are generic over a type or a constant.

use vstd::prelude::*;

use super::meta::{compare_i128, int_order};
use super::GroupEntry;
use crate::text::{compare_text, text_order, Order};

verus! {

/// The constant that a generic benchmark is made for.
#[derive(Clone, Copy, Debug)]
pub struct EntryConst<'a> {
    /// The constant as it is written.
    pub name: &'a str,
    /// The number that the constant is, if it is one.
    pub value: Option<i128>,
}

/// One benchmark of those that a generic benchmark function makes, for one
/// type or one constant.
pub struct GenericBenchEntry<'a> {
    /// The group of all benchmarks of the function.
    pub group: &'a GroupEntry<'a>,
    /// What tells the entry from all others; it orders entries as they are
    /// laid out by the compiler.
    pub addr: usize,
    /// The entry's name, as it is written in the source code.
    pub raw_name: &'a str,
    /// The entry's name, as it is shown.
    pub display_name: &'a str,
    /// The constant that the benchmark is made for, if it is made for one.
    pub const_value: Option<EntryConst<'a>>,
}

/// How the names of the constants `a` and `b` compare: as numbers if both
/// constants are numbers, and else as texts.
pub open spec fn const_name_order(a: EntryConst, b: EntryConst) -> Order {
    match (a.value, b.value) {
        (Some(x), Some(y)) => int_order(x as int, y as int),
        _ => text_order(a.name@, b.name@),
    }
}

impl<'a> EntryConst<'a> {
    /// Compares the name of this constant to that of `other`, so that
    /// numbers are ordered by value and not by their digits.
    pub fn compare_name(&self, other: &EntryConst) -> (order: Order)
        ensures
            order == const_name_order(*self, *other),
    {
        match (self.value, other.value) {
            (Some(x), Some(y)) => compare_i128(x, y),
            _ => compare_text(self.name, other.name),
        }
    }
}

} // verus!
