//! What is known of a benchmark entry apart from what it runs.

use vstd::prelude::*;

use crate::bench::BenchOptions;
use crate::text::{compare_text, text_order, Order};

verus! {

/// Where an entry is in the source code.
#[derive(Clone, Copy, Debug)]
pub struct EntryLocation<'a> {
    /// The path of the source file.
    pub file: &'a str,
    /// The line in the file, counted from 1.
    pub line: u32,
    /// The column in the line, counted from 1.
    pub col: u32,
}

/// Metadata common to entries of benchmarks and of groups.
pub struct EntryMeta<'a> {
    /// The entry's name, as it is written in the source code.
    pub raw_name: &'a str,
    /// The entry's name, as it is shown.
    pub display_name: &'a str,
    /// The names of the modules that the entry is in, outermost first.
    pub modules: Vec<&'a str>,
    /// Where the entry is in the source code.
    pub location: EntryLocation<'a>,
    /// The options that were set for the entry, if any were.
    pub bench_options: Option<BenchOptions>,
}

/// How the numbers `a` and `b` compare.
pub open spec fn int_order(a: int, b: int) -> Order {
    if a < b {
        Order::Less
    } else if a > b {
        Order::Greater
    } else {
        Order::Equal
    }
}

/// How the locations `a` and `b` compare: by file, then by line, then by
/// column.
pub open spec fn location_order(a: EntryLocation, b: EntryLocation) -> Order {
    let by_file = text_order(a.file@, b.file@);
    let by_line = int_order(a.line as int, b.line as int);
    if !(by_file is Equal) {
        by_file
    } else if !(by_line is Equal) {
        by_line
    } else {
        int_order(a.col as int, b.col as int)
    }
}

/// How two locations compare of which either may be unknown. An unknown
/// location comes before every known one.
pub open spec fn known_location_order(a: Option<EntryLocation>, b: Option<EntryLocation>) -> Order {
    match (a, b) {
        (None, None) => Order::Equal,
        (None, Some(_)) => Order::Less,
        (Some(_), None) => Order::Greater,
        (Some(a), Some(b)) => location_order(a, b),
    }
}

/// Comparing two locations the other way round gives the opposite.
pub proof fn lemma_location_order_reversed(a: Option<EntryLocation>, b: Option<EntryLocation>)
    ensures
        known_location_order(b, a) == known_location_order(a, b).reverse(),
{
    if let (Some(a), Some(b)) = (a, b) {
        crate::text::lemma_bytes_order_reversed(
            vstd::utf8::encode_utf8(a.file@),
            vstd::utf8::encode_utf8(b.file@),
        );
    }
}

/// Compares two numbers.
pub fn compare_u32(a: u32, b: u32) -> (order: Order)
    ensures
        order == int_order(a as int, b as int),
{
    if a < b {
        Order::Less
    } else if a > b {
        Order::Greater
    } else {
        Order::Equal
    }
}

/// Compares two numbers.
pub fn compare_usize(a: usize, b: usize) -> (order: Order)
    ensures
        order == int_order(a as int, b as int),
{
    if a < b {
        Order::Less
    } else if a > b {
        Order::Greater
    } else {
        Order::Equal
    }
}

/// Compares two numbers.
pub fn compare_i128(a: i128, b: i128) -> (order: Order)
    ensures
        order == int_order(a as int, b as int),
{
    if a < b {
        Order::Less
    } else if a > b {
        Order::Greater
    } else {
        Order::Equal
    }
}

impl<'a> EntryLocation<'a> {
    /// Compares this location to `other`: by file, then by line, then by
    /// column.
    pub fn compare(&self, other: &EntryLocation) -> (order: Order)
        ensures
            order == location_order(*self, *other),
    {
        let by_file = compare_text(self.file, other.file);
        if !matches!(by_file, Order::Equal) {
            return by_file;
        }
        let by_line = compare_u32(self.line, other.line);
        if !matches!(by_line, Order::Equal) {
            return by_line;
        }
        compare_u32(self.col, other.col)
    }
}

/// Compares two locations of which either may be unknown.
pub fn compare_known_locations(a: Option<&EntryLocation>, b: Option<&EntryLocation>) -> (order:
    Order)
    ensures
        order == known_location_order(
            match a {
                Some(a) => Some(*a),
                None => None,
            },
            match b {
                Some(b) => Some(*b),
                None => None,
            },
        ),
{
    match (a, b) {
        (None, None) => Order::Equal,
        (None, Some(_)) => Order::Less,
        (Some(_), None) => Order::Greater,
        (Some(a), Some(b)) => a.compare(b),
    }
}

impl<'a> EntryMeta<'a> {
    /// The options that were set for the entry, if any were.
    pub fn bench_options(&self) -> (options: Option<&BenchOptions>)
        ensures
            options == match self.bench_options {
                Some(options) => Some(&options),
                None => None,
            },
    {
        self.bench_options.as_ref()
    }
}

} // verus!
