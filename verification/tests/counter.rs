use divan::counter::{AnyCounter, CountTotals, CounterCollection, KnownCounterKind};

#[test]
fn new_collection_has_no_counts() {
    let counters = CounterCollection::new();
    for kind in KnownCounterKind::all() {
        assert!(counters.counts(kind).is_empty());
        assert!(!counters.uses_input_counts(kind));
        assert_eq!(counters.mean_count(kind), 0);
    }
}

#[test]
fn fixed_counter_replaces_what_was_there() {
    let mut counters = CounterCollection::new();
    counters.set_counter(AnyCounter::bytes(12));
    assert_eq!(counters.counts(KnownCounterKind::Bytes), &vec![12]);
    counters.set_counter(AnyCounter::bytes(40));
    assert_eq!(counters.counts(KnownCounterKind::Bytes), &vec![40]);
    assert_eq!(counters.mean_count(KnownCounterKind::Bytes), 40);
    assert!(counters.counts(KnownCounterKind::Items).is_empty());

    counters.set_input_counter(KnownCounterKind::Bytes);
    assert!(counters.uses_input_counts(KnownCounterKind::Bytes));
    assert!(counters.counts(KnownCounterKind::Bytes).is_empty());

    counters.set_counter(AnyCounter::bytes(3));
    assert!(!counters.uses_input_counts(KnownCounterKind::Bytes));
    assert_eq!(counters.counts(KnownCounterKind::Bytes), &vec![3]);
}

#[test]
fn push_counter_fills_per_input_columns_only() {
    let mut counters = CounterCollection::new();
    counters.set_counter(AnyCounter::items(5));
    counters.set_input_counter(KnownCounterKind::Chars);

    counters.push_counter(AnyCounter::chars(10));
    counters.push_counter(AnyCounter::chars(21));
    counters.push_counter(AnyCounter::items(99));
    counters.push_counter(AnyCounter::bytes(99));

    assert_eq!(counters.counts(KnownCounterKind::Chars), &vec![10, 21]);
    assert_eq!(counters.counts(KnownCounterKind::Items), &vec![5]);
    assert!(counters.counts(KnownCounterKind::Bytes).is_empty());
    assert_eq!(counters.mean_count(KnownCounterKind::Chars), 15);
    assert_eq!(counters.mean_count(KnownCounterKind::Items), 5);
}

#[test]
fn clear_input_counts_keeps_fixed_counts() {
    let mut counters = CounterCollection::new();
    counters.set_counter(AnyCounter::items(5));
    counters.set_input_counter(KnownCounterKind::Chars);
    counters.push_counter(AnyCounter::chars(10));

    counters.clear_input_counts();

    assert!(counters.counts(KnownCounterKind::Chars).is_empty());
    assert!(counters.uses_input_counts(KnownCounterKind::Chars));
    assert_eq!(counters.counts(KnownCounterKind::Items), &vec![5]);
}

#[test]
fn mean_count_does_not_overflow() {
    let mut counters = CounterCollection::new();
    counters.set_input_counter(KnownCounterKind::Bytes);
    counters.push_counter(AnyCounter::bytes(u64::MAX));
    counters.push_counter(AnyCounter::bytes(u64::MAX));
    counters.push_counter(AnyCounter::bytes(u64::MAX - 3));
    assert_eq!(counters.mean_count(KnownCounterKind::Bytes), u64::MAX - 1);
}

#[test]
fn kinds_have_their_positions() {
    let all = KnownCounterKind::all();
    assert_eq!(all.len(), KnownCounterKind::COUNT);
    for (position, kind) in all.iter().enumerate() {
        assert_eq!(kind.index(), position);
    }
    assert_eq!(AnyCounter::known(KnownCounterKind::Items, 4), AnyCounter::items(4));
}

#[test]
fn totals_add_up_and_saturate() {
    let mut totals = CountTotals::new();
    totals.tally(KnownCounterKind::Bytes, 7);
    totals.tally(KnownCounterKind::Bytes, 8);
    totals.tally(KnownCounterKind::Items, 1);
    assert_eq!(totals.get(KnownCounterKind::Bytes), 15);
    assert_eq!(totals.get(KnownCounterKind::Chars), 0);
    assert_eq!(totals.get(KnownCounterKind::Items), 1);

    let mut full = CountTotals { bytes: u128::MAX - 1, chars: 0, items: 0 };
    full.tally(KnownCounterKind::Bytes, 5);
    assert_eq!(full.get(KnownCounterKind::Bytes), u128::MAX);
}
