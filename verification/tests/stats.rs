use divan::stats::{Sample, SampleCollection};
use divan::time::FineDuration;

fn collection(sample_size: u32, picos: &[u128]) -> SampleCollection {
    SampleCollection {
        sample_size,
        all: picos.iter().map(|&picos| Sample { duration: FineDuration { picos } }).collect(),
    }
}

#[test]
fn sorted_samples_lists_indices_from_fastest_to_slowest() {
    let samples = collection(1, &[30, 10, 20]);
    assert_eq!(samples.sorted_samples(), vec![1, 2, 0]);
    assert_eq!(collection(1, &[]).sorted_samples(), Vec::<usize>::new());
    assert_eq!(collection(1, &[5]).sorted_samples(), vec![0]);
    assert_eq!(collection(1, &[1, 2, 3, 4]).sorted_samples(), vec![0, 1, 2, 3]);
    assert_eq!(collection(1, &[4, 3, 2, 1]).sorted_samples(), vec![3, 2, 1, 0]);
}

#[test]
fn sorted_samples_keeps_equal_samples_in_order() {
    let samples = collection(1, &[7, 3, 7, 3, 7]);
    assert_eq!(samples.sorted_samples(), vec![1, 3, 0, 2, 4]);
}

#[test]
fn iter_count_is_samples_times_size() {
    assert_eq!(collection(10, &[1, 2, 3, 4, 5]).iter_count(), 50);
    assert_eq!(collection(0, &[1, 2]).iter_count(), 0);
    assert_eq!(collection(7, &[]).iter_count(), 0);
    assert_eq!(SampleCollection::new().iter_count(), 0);
}

#[test]
fn total_duration_sums_and_saturates() {
    assert_eq!(collection(1, &[1, 2, 3]).total_duration().picos, 6);
    assert_eq!(collection(1, &[]).total_duration().picos, 0);
    assert_eq!(collection(1, &[u128::MAX, 1, 2]).total_duration().picos, u128::MAX);
}
