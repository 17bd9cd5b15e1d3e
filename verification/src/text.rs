//! Comparing and cutting the names of benchmark entries.

use vstd::prelude::*;
use vstd::string::{StrSliceExecFns, StringSliceAdditionalSpecFns};

verus! {

/// How one thing stands to another in an order.
#[derive(Clone, Copy, Debug, PartialEq, Eq, Structural, Hash)]
pub enum Order {
    /// The one comes before the other.
    Less,
    /// Neither comes before the other.
    Equal,
    /// The one comes after the other.
    Greater,
}

impl Order {
    /// The opposite of this order.
    pub open spec fn spec_reverse(self) -> Order {
        match self {
            Order::Less => Order::Greater,
            Order::Equal => Order::Equal,
            Order::Greater => Order::Less,
        }
    }

    /// The opposite of this order.
    #[verifier::when_used_as_spec(spec_reverse)]
    pub fn reverse(self) -> (order: Order)
        ensures
            order == self.spec_reverse(),
    {
        match self {
            Order::Less => Order::Greater,
            Order::Equal => Order::Equal,
            Order::Greater => Order::Less,
        }
    }
}

/// How `a` and `b` compare byte by byte: the first byte in which they differ
/// decides, and a sequence comes before those that it is the beginning of.
pub open spec fn bytes_order(a: Seq<u8>, b: Seq<u8>) -> Order
    decreases a.len(),
{
    if a.len() == 0 {
        if b.len() == 0 {
            Order::Equal
        } else {
            Order::Less
        }
    } else if b.len() == 0 {
        Order::Greater
    } else if a[0] < b[0] {
        Order::Less
    } else if a[0] > b[0] {
        Order::Greater
    } else {
        bytes_order(a.drop_first(), b.drop_first())
    }
}

/// How the texts `a` and `b` compare: byte by byte in their UTF-8 encoding,
/// which is the order of their characters in the Unicode code charts.
pub open spec fn text_order(a: Seq<char>, b: Seq<char>) -> Order {
    bytes_order(vstd::utf8::encode_utf8(a), vstd::utf8::encode_utf8(b))
}

/// `name` without the `r#` in front that makes a raw identifier of a
/// keyword.
pub open spec fn without_raw_prefix(name: Seq<char>) -> Seq<char> {
    if name.len() >= 2 && name[0] == 'r' && name[1] == '#' {
        name.skip(2)
    } else {
        name
    }
}

/// Comparing two sequences the other way round gives the opposite.
pub proof fn lemma_bytes_order_reversed(a: Seq<u8>, b: Seq<u8>)
    ensures
        bytes_order(b, a) == bytes_order(a, b).reverse(),
    decreases a.len(),
{
    if a.len() > 0 && b.len() > 0 && a[0] == b[0] {
        lemma_bytes_order_reversed(a.drop_first(), b.drop_first());
    }
}

/// Two sequences compare equal only if they are the same.
pub proof fn lemma_bytes_order_equal(a: Seq<u8>, b: Seq<u8>)
    ensures
        bytes_order(a, b) is Equal <==> a == b,
    decreases a.len(),
{
    if a.len() > 0 && b.len() > 0 {
        lemma_bytes_order_equal(a.drop_first(), b.drop_first());
        if a[0] == b[0] && a.drop_first() == b.drop_first() {
            assert(a =~= seq![a[0]] + a.drop_first());
            assert(b =~= seq![b[0]] + b.drop_first());
        }
    } else if a.len() == 0 && b.len() == 0 {
        assert(a =~= b);
    }
}

/// Two texts compare equal only if they are the same.
pub proof fn lemma_text_order_equal(a: Seq<char>, b: Seq<char>)
    ensures
        text_order(a, b) is Equal <==> a == b,
{
    lemma_bytes_order_equal(vstd::utf8::encode_utf8(a), vstd::utf8::encode_utf8(b));
    vstd::utf8::encode_utf8_decode_utf8(a);
    vstd::utf8::encode_utf8_decode_utf8(b);
}

/// Compares two sequences of bytes.
pub fn compare_bytes(a: &[u8], b: &[u8]) -> (order: Order)
    ensures
        order == bytes_order(a@, b@),
{
    let mut i: usize = 0;
    assert(a@.skip(0) == a@ && b@.skip(0) == b@);
    while i < a.len() && i < b.len()
        invariant
            i <= a@.len(),
            i <= b@.len(),
            bytes_order(a@, b@) == bytes_order(a@.skip(i as int), b@.skip(i as int)),
        decreases a@.len() - i,
    {
        proof {
            assert(a@.skip(i as int).drop_first() == a@.skip(i + 1));
            assert(b@.skip(i as int).drop_first() == b@.skip(i + 1));
        }
        if a[i] < b[i] {
            return Order::Less;
        }
        if a[i] > b[i] {
            return Order::Greater;
        }
        i = i + 1;
    }
    if i < b.len() {
        Order::Less
    } else if i < a.len() {
        Order::Greater
    } else {
        Order::Equal
    }
}

/// Compares two texts.
pub fn compare_text(a: &str, b: &str) -> (order: Order)
    ensures
        order == text_order(a@, b@),
{
    compare_bytes(a.as_bytes(), b.as_bytes())
}

/// Whether two texts are the same.
pub fn same_text(a: &str, b: &str) -> (same: bool)
    ensures
        same == (a@ == b@),
{
    proof {
        lemma_text_order_equal(a@, b@);
    }
    matches!(compare_text(a, b), Order::Equal)
}

/// Returns `name` without the `r#` in front that makes a raw identifier of a
/// keyword.
pub fn strip_raw_prefix<'a>(name: &'a str) -> (stripped: &'a str)
    ensures
        stripped@ == without_raw_prefix(name@),
{
    let len = name.unicode_len();
    if len >= 2 && name.get_char(0) == 'r' && name.get_char(1) == '#' {
        let stripped = name.substring_char(2, len);
        assert(stripped@ == name@.skip(2));
        stripped
    } else {
        name
    }
}

} // verus!
