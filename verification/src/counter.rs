//! Per-iteration quantities, such as bytes or items, that a benchmark
//! processes.
//!
//! A counter of a kind is either *fixed*, with one count for every iteration
//! of the benchmark, or *per input*, with a count taken from each generated
//! input and one averaged entry for each recorded sample.

use vstd::prelude::*;

verus! {

/// The kinds of counter that exist.
#[derive(Clone, Copy, Debug, PartialEq, Eq, Structural, Hash)]
pub enum KnownCounterKind {
    Bytes,
    Chars,
    Items,
}

/// A count of some kind.
#[derive(Clone, Copy, Debug, PartialEq, Eq, Structural, Hash)]
pub struct AnyCounter {
    pub kind: KnownCounterKind,
    pub count: u64,
}

/// What a [`CounterCollection`] holds for one kind of counter.
pub enum CounterState {
    /// No counter of the kind was set.
    Absent,
    /// Every iteration has this count.
    Fixed(u64),
    /// The counts come from the inputs; there is one entry, the count of an
    /// average iteration, for each recorded sample.
    PerInput(Seq<u64>),
}

/// The counts that the inputs of one sample add up to, for each kind.
#[derive(Clone, Copy, Debug, PartialEq, Eq, Structural)]
pub struct CountTotals {
    pub bytes: u128,
    pub chars: u128,
    pub items: u128,
}

/// The counts of one kind.
struct CounterInfo {
    /// The fixed count alone, or the column of per-sample counts.
    counts: Vec<u64>,
    /// Whether the counts are taken from the inputs.
    per_input: bool,
}

/// The counters of a benchmark, one slot for each kind.
pub struct CounterCollection {
    bytes: CounterInfo,
    chars: CounterInfo,
    items: CounterInfo,
}

/// The sum of `counts`.
pub open spec fn sum_of(counts: Seq<u64>) -> nat
    decreases counts.len(),
{
    if counts.len() == 0 {
        0
    } else {
        sum_of(counts.drop_last()) + counts.last() as nat
    }
}

/// The arithmetic mean of `counts`, rounded down; zero if there are none.
pub open spec fn mean_of(counts: Seq<u64>) -> nat {
    if counts.len() == 0 {
        0
    } else {
        sum_of(counts) / counts.len()
    }
}

/// A sum of `n` counts is at most `n` times the largest count.
pub proof fn lemma_sum_of_bound(counts: Seq<u64>)
    ensures
        sum_of(counts) <= counts.len() * u64::MAX,
    decreases counts.len(),
{
    if counts.len() > 0 {
        lemma_sum_of_bound(counts.drop_last());
        assert((counts.len() - 1) * u64::MAX + u64::MAX == counts.len() * u64::MAX)
            by (nonlinear_arith);
    }
}

/// The mean of some counts is itself a count.
pub proof fn lemma_mean_of_bound(counts: Seq<u64>)
    ensures
        mean_of(counts) <= u64::MAX,
{
    if counts.len() > 0 {
        lemma_sum_of_bound(counts);
        let n = counts.len() as int;
        let sum = sum_of(counts) as int;
        assert(sum / n <= u64::MAX) by (nonlinear_arith)
            requires
                n > 0,
                0 <= sum <= n * u64::MAX,
        ;
    }
}

impl KnownCounterKind {
    /// The number of kinds.
    pub const COUNT: usize = 3;

    /// The width that a column of time statistics commonly needs: that of
    /// `1.111 Kitem/s`, the longest of what such a column commonly shows.
    pub const MAX_COMMON_COLUMN_WIDTH: usize = 13;

    /// The position of this kind among all kinds.
    pub open spec fn spec_index(self) -> int {
        match self {
            KnownCounterKind::Bytes => 0,
            KnownCounterKind::Chars => 1,
            KnownCounterKind::Items => 2,
        }
    }

    /// The position of this kind among all kinds.
    pub fn index(self) -> (i: usize)
        ensures
            i == self.spec_index(),
            i < Self::COUNT,
    {
        match self {
            KnownCounterKind::Bytes => 0,
            KnownCounterKind::Chars => 1,
            KnownCounterKind::Items => 2,
        }
    }

    /// All kinds, in the order of their positions.
    pub fn all() -> (kinds: [KnownCounterKind; 3])
        ensures
            forall|kind: KnownCounterKind| kinds[kind.spec_index()] == kind,
    {
        [KnownCounterKind::Bytes, KnownCounterKind::Chars, KnownCounterKind::Items]
    }
}

impl AnyCounter {
    /// A count of `count` of the given kind.
    pub fn known(kind: KnownCounterKind, count: u64) -> (counter: Self)
        ensures
            counter.kind == kind,
            counter.count == count,
    {
        AnyCounter { kind, count }
    }

    /// A count of bytes.
    pub fn bytes(count: u64) -> (counter: Self)
        ensures
            counter == (AnyCounter { kind: KnownCounterKind::Bytes, count }),
    {
        AnyCounter { kind: KnownCounterKind::Bytes, count }
    }

    /// A count of characters.
    pub fn chars(count: u64) -> (counter: Self)
        ensures
            counter == (AnyCounter { kind: KnownCounterKind::Chars, count }),
    {
        AnyCounter { kind: KnownCounterKind::Chars, count }
    }

    /// A count of items.
    pub fn items(count: u64) -> (counter: Self)
        ensures
            counter == (AnyCounter { kind: KnownCounterKind::Items, count }),
    {
        AnyCounter { kind: KnownCounterKind::Items, count }
    }
}

impl CountTotals {
    /// The total of `kind`.
    pub open spec fn spec_get(self, kind: KnownCounterKind) -> u128 {
        match kind {
            KnownCounterKind::Bytes => self.bytes,
            KnownCounterKind::Chars => self.chars,
            KnownCounterKind::Items => self.items,
        }
    }

    /// Totals of zero.
    pub open spec fn zero() -> CountTotals {
        CountTotals { bytes: 0, chars: 0, items: 0 }
    }

    /// Totals of zero.
    pub fn new() -> (totals: Self)
        ensures
            totals == Self::zero(),
    {
        CountTotals { bytes: 0, chars: 0, items: 0 }
    }

    /// The total of `kind`.
    #[verifier::when_used_as_spec(spec_get)]
    pub fn get(self, kind: KnownCounterKind) -> (total: u128)
        ensures
            total == self.spec_get(kind),
    {
        match kind {
            KnownCounterKind::Bytes => self.bytes,
            KnownCounterKind::Chars => self.chars,
            KnownCounterKind::Items => self.items,
        }
    }

    /// These totals with `count` added to the total of `kind`. A total that
    /// cannot be represented stays at the largest one that can.
    pub open spec fn tallied(self, kind: KnownCounterKind, count: u64) -> CountTotals {
        let total = if self.spec_get(kind) + count > u128::MAX {
            u128::MAX
        } else {
            (self.spec_get(kind) + count) as u128
        };
        match kind {
            KnownCounterKind::Bytes => CountTotals { bytes: total, ..self },
            KnownCounterKind::Chars => CountTotals { chars: total, ..self },
            KnownCounterKind::Items => CountTotals { items: total, ..self },
        }
    }

    /// Adds `count` to the total of `kind`. A total that cannot be
    /// represented stays at the largest one that can.
    pub fn tally(&mut self, kind: KnownCounterKind, count: u64)
        ensures
            *final(self) == old(self).tallied(kind, count),
    {
        match kind {
            KnownCounterKind::Bytes => {
                self.bytes = self.bytes.saturating_add(count as u128);
            },
            KnownCounterKind::Chars => {
                self.chars = self.chars.saturating_add(count as u128);
            },
            KnownCounterKind::Items => {
                self.items = self.items.saturating_add(count as u128);
            },
        }
    }
}

impl CounterInfo {
    spec fn wf(self) -> bool {
        !self.per_input ==> self.counts@.len() <= 1
    }

    spec fn state(self) -> CounterState {
        if self.per_input {
            CounterState::PerInput(self.counts@)
        } else if self.counts@.len() == 0 {
            CounterState::Absent
        } else {
            CounterState::Fixed(self.counts@[0])
        }
    }

    fn absent() -> (info: Self)
        ensures
            info.wf(),
            info.state() == CounterState::Absent,
    {
        CounterInfo { counts: Vec::new(), per_input: false }
    }
}

impl CounterState {
    /// The counts held: none, the fixed count alone, or the per-sample column.
    pub open spec fn counts(self) -> Seq<u64> {
        match self {
            CounterState::Absent => Seq::empty(),
            CounterState::Fixed(count) => seq![count],
            CounterState::PerInput(column) => column,
        }
    }

    /// This state without the entries of a per-input column.
    pub open spec fn cleared(self) -> CounterState {
        match self {
            CounterState::PerInput(_) => CounterState::PerInput(Seq::empty()),
            _ => self,
        }
    }

    /// This state with an entry of `count` more, if it is a per-input column.
    pub open spec fn pushed(self, count: u64) -> CounterState {
        match self {
            CounterState::PerInput(column) => CounterState::PerInput(column.push(count)),
            _ => self,
        }
    }
}

impl CounterCollection {
    /// Whether the representation invariant holds. It does for every
    /// collection that this module hands out.
    pub closed spec fn wf(self) -> bool {
        &&& self.bytes.wf()
        &&& self.chars.wf()
        &&& self.items.wf()
    }

    /// What is held for `kind`.
    pub closed spec fn state(self, kind: KnownCounterKind) -> CounterState {
        match kind {
            KnownCounterKind::Bytes => self.bytes.state(),
            KnownCounterKind::Chars => self.chars.state(),
            KnownCounterKind::Items => self.items.state(),
        }
    }

    /// Whether every per-input column has exactly `len` entries.
    pub open spec fn columns_have_len(self, len: nat) -> bool {
        forall|kind: KnownCounterKind|
            (#[trigger] self.state(kind)) matches CounterState::PerInput(column)
                ==> column.len() == len
    }

    /// A collection without any counter.
    pub fn new() -> (counters: Self)
        ensures
            counters.wf(),
            forall|kind: KnownCounterKind| counters.state(kind) == CounterState::Absent,
    {
        CounterCollection {
            bytes: CounterInfo::absent(),
            chars: CounterInfo::absent(),
            items: CounterInfo::absent(),
        }
    }

    fn info(&self, kind: KnownCounterKind) -> (info: &CounterInfo)
        ensures
            info.state() == self.state(kind),
            self.wf() ==> info.wf() && info.counts@ == self.state(kind).counts(),
    {
        proof {
            if self.wf() {
                assert(self.bytes.counts@ =~= self.bytes.state().counts());
                assert(self.chars.counts@ =~= self.chars.state().counts());
                assert(self.items.counts@ =~= self.items.state().counts());
            }
        }
        match kind {
            KnownCounterKind::Bytes => &self.bytes,
            KnownCounterKind::Chars => &self.chars,
            KnownCounterKind::Items => &self.items,
        }
    }

    fn put(&mut self, kind: KnownCounterKind, info: CounterInfo)
        requires
            old(self).wf(),
            info.wf(),
        ensures
            final(self).wf(),
            final(self).state(kind) == info.state(),
            forall|other: KnownCounterKind|
                other != kind ==> final(self).state(other) == old(self).state(other),
    {
        match kind {
            KnownCounterKind::Bytes => {
                self.bytes = info;
            },
            KnownCounterKind::Chars => {
                self.chars = info;
            },
            KnownCounterKind::Items => {
                self.items = info;
            },
        }
    }

    /// The counts of `kind`: one entry for each recorded sample if they are
    /// taken from the inputs, a single entry if the count is fixed, and none
    /// if there is no such counter.
    pub fn counts(&self, kind: KnownCounterKind) -> (counts: &Vec<u64>)
        requires
            self.wf(),
        ensures
            counts@ == self.state(kind).counts(),
    {
        &self.info(kind).counts
    }

    /// Whether the counts of `kind` are taken from the inputs.
    pub fn uses_input_counts(&self, kind: KnownCounterKind) -> (per_input: bool)
        ensures
            per_input == (self.state(kind) is PerInput),
    {
        self.info(kind).per_input
    }

    /// The count of `kind` of an average iteration: the fixed count, or the
    /// mean of the per-sample counts. Zero if there are no counts.
    pub fn mean_count(&self, kind: KnownCounterKind) -> (mean: u64)
        requires
            self.wf(),
        ensures
            mean == mean_of(self.state(kind).counts()),
    {
        let counts = &self.info(kind).counts;
        let len = counts.len();
        if len == 0 {
            return 0;
        }
        let mut sum: u128 = 0;
        let mut i: usize = 0;
        while i < len
            invariant
                len == counts@.len(),
                i <= len,
                sum == sum_of(counts@.take(i as int)),
                sum <= i * u64::MAX,
            decreases len - i,
        {
            proof {
                assert(counts@.take(i + 1).drop_last() == counts@.take(i as int));
                assert(i * u64::MAX + u64::MAX == (i + 1) * u64::MAX) by (nonlinear_arith);
                assert((i + 1) * u64::MAX <= usize::MAX * u64::MAX) by (nonlinear_arith)
                    requires
                        i + 1 <= usize::MAX,
                ;
            }
            sum = sum + counts[i] as u128;
            i = i + 1;
        }
        proof {
            assert(counts@.take(len as int) == counts@);
            lemma_mean_of_bound(counts@);
        }
        (sum / len as u128) as u64
    }

    /// Gives every iteration the count of `counter`, in place of whatever was
    /// held for its kind.
    pub fn set_counter(&mut self, counter: AnyCounter)
        requires
            old(self).wf(),
        ensures
            final(self).wf(),
            final(self).state(counter.kind) == CounterState::Fixed(counter.count),
            forall|other: KnownCounterKind|
                other != counter.kind ==> final(self).state(other) == old(self).state(other),
    {
        let mut counts = Vec::new();
        counts.push(counter.count);
        self.put(counter.kind, CounterInfo { counts, per_input: false });
    }

    /// Declares that the counts of `kind` are taken from the inputs, in place
    /// of whatever was held for that kind. The column starts out empty.
    pub fn set_input_counter(&mut self, kind: KnownCounterKind)
        requires
            old(self).wf(),
        ensures
            final(self).wf(),
            final(self).state(kind) == CounterState::PerInput(Seq::empty()),
            forall|other: KnownCounterKind|
                other != kind ==> final(self).state(other) == old(self).state(other),
    {
        self.put(kind, CounterInfo { counts: Vec::new(), per_input: true });
    }

    /// Appends the count of `counter` to the column of its kind, if the counts
    /// of that kind are taken from the inputs; does nothing otherwise.
    pub fn push_counter(&mut self, counter: AnyCounter)
        requires
            old(self).wf(),
        ensures
            final(self).wf(),
            final(self).state(counter.kind) == old(self).state(counter.kind).pushed(
                counter.count,
            ),
            forall|other: KnownCounterKind|
                other != counter.kind ==> final(self).state(other) == old(self).state(other),
    {
        match counter.kind {
            KnownCounterKind::Bytes => {
                if self.bytes.per_input {
                    self.bytes.counts.push(counter.count);
                }
            },
            KnownCounterKind::Chars => {
                if self.chars.per_input {
                    self.chars.counts.push(counter.count);
                }
            },
            KnownCounterKind::Items => {
                if self.items.per_input {
                    self.items.counts.push(counter.count);
                }
            },
        }
    }

    /// Empties every per-input column. Fixed counts stay.
    pub fn clear_input_counts(&mut self)
        requires
            old(self).wf(),
        ensures
            final(self).wf(),
            forall|kind: KnownCounterKind|
                final(self).state(kind) == old(self).state(kind).cleared(),
    {
        if self.bytes.per_input {
            self.bytes.counts.clear();
        }
        if self.chars.per_input {
            self.chars.counts.clear();
        }
        if self.items.per_input {
            self.items.counts.clear();
        }
        assert forall|kind: KnownCounterKind|
            final(self).state(kind) == old(self).state(kind).cleared() by {
            match kind {
                KnownCounterKind::Bytes => {},
                KnownCounterKind::Chars => {},
                KnownCounterKind::Items => {},
            }
        }
    }
}

} // verus!
