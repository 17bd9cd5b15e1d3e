//! Small helpers shared by the rest of the crate.

use vstd::prelude::*;

verus! {

/// Stand-in for `()` that code outside of this crate cannot name by accident.
///
/// It is the input generator of a [`Bencher`](crate::bench::Bencher) that was
/// not given one.
#[non_exhaustive]
pub struct Unit;

/// The values in the middle of `s`: none if `s` is empty, the center element
/// if its length is odd, and the two center elements if its length is even.
pub open spec fn middle_of<T>(s: Seq<T>) -> Seq<T> {
    let n = s.len() as int;
    if n == 0 {
        Seq::empty()
    } else if n % 2 == 0 {
        seq![s[n / 2 - 1], s[n / 2]]
    } else {
        seq![s[n / 2]]
    }
}

/// Returns the values in the middle of `slice`.
///
/// If the slice has an even length, two middle values exist.
pub fn slice_middle<T>(slice: &[T]) -> (middle: &[T])
    ensures
        middle@ == middle_of(slice@),
{
    let len = slice.len();
    if len == 0 {
        slice
    } else if len % 2 == 0 {
        &slice[len / 2 - 1..len / 2 + 1]
    } else {
        &slice[len / 2..len / 2 + 1]
    }
}

} // verus!
