
#[test]
fn slice_middle() {
    assert_eq!(divan::util::slice_middle::<i32>(&[]), &[] as &[i32]);
    assert_eq!(divan::util::slice_middle(&[1]), &[1]);
    assert_eq!(divan::util::slice_middle(&[1, 2]), &[1, 2]);
    assert_eq!(divan::util::slice_middle(&[1, 2, 3]), &[2]);
    assert_eq!(divan::util::slice_middle(&[1, 2, 3, 4]), &[2, 3]);
    assert_eq!(divan::util::slice_middle(&[1, 2, 3, 4, 5]), &[3]);
}
