use scylla_core::rotation::{compute_rotation, slice_rotated_left};

#[test]
fn rotation_puts_element_first() {
    let v = vec![10, 20, 30, 40];
    for i in 0..9usize {
        let k = compute_rotation(i, v.len());
        assert_eq!(slice_rotated_left(&v, k)[0], v[i % 4]);
    }
    assert_eq!(slice_rotated_left(&v, 1), vec![20, 30, 40, 10]);
    assert_eq!(slice_rotated_left(&v, 3), vec![40, 10, 20, 30]);
}

#[test]
fn rotation_by_zero_or_length_is_identity() {
    let v = vec![1, 2, 3];
    assert_eq!(slice_rotated_left(&v, 0), v);
    assert_eq!(slice_rotated_left(&v, 3), v);
}

#[test]
fn rotation_of_empty_list() {
    let v: Vec<usize> = vec![];
    assert_eq!(compute_rotation(17, 0), 0);
    assert!(slice_rotated_left(&v, compute_rotation(17, 0)).is_empty());
    assert_eq!(compute_rotation(17, 5), 2);
    assert_eq!(compute_rotation(usize::MAX, 2), 1);
}
