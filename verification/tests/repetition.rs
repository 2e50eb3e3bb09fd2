use listkit::{dropn, duplicate, replicate};

#[test]
fn duplicate_of_nothing_is_nothing() {
    assert_eq!(duplicate::<u8>(&[]), []);
}

#[test]
fn duplicate_writes_each_element_twice() {
    assert_eq!(duplicate(&[1u8]), [1, 1]);
    assert_eq!(duplicate(&[1u8, 2, 1]), [1, 1, 2, 2, 1, 1]);
}

#[test]
fn duplicate_is_replicate_by_two() {
    let xs: [u8; 4] = [9, 8, 8, 7];
    assert_eq!(duplicate(&xs), replicate(&xs, 2));
}

#[test]
fn replicate_by_zero_is_empty() {
    assert_eq!(replicate(&[1u8, 2, 3], 0), []);
}

#[test]
fn replicate_by_one_is_the_list() {
    assert_eq!(replicate(&[1u8, 2, 3], 1), [1, 2, 3]);
}

#[test]
fn replicate_of_nothing_is_nothing() {
    assert_eq!(replicate::<u8>(&[], 5), []);
}

#[test]
fn replicate_writes_each_element_in_a_row() {
    assert_eq!(replicate(&[1u8, 2], 4), [1, 1, 1, 1, 2, 2, 2, 2]);
    assert_eq!(replicate(&[6u8], 3), [6, 6, 6]);
}

#[test]
fn dropn_by_zero_or_one_keeps_nothing() {
    assert_eq!(dropn(&[1u8, 2, 3], 0), []);
    assert_eq!(dropn(&[1u8, 2, 3], 1), []);
}

#[test]
fn dropn_by_two_keeps_every_other_element() {
    assert_eq!(dropn(&[1u8, 2, 3, 4, 5], 2), [1, 3, 5]);
    assert_eq!(dropn(&[1u8, 2, 3, 4], 2), [1, 3]);
}

#[test]
fn dropn_beyond_the_end_keeps_all() {
    assert_eq!(dropn(&[1u8, 2, 3], 4), [1, 2, 3]);
    assert_eq!(dropn(&[1u8, 2, 3], usize::MAX), [1, 2, 3]);
}

#[test]
fn dropn_by_the_length_drops_the_last() {
    assert_eq!(dropn(&[1u8, 2, 3], 3), [1, 2]);
}

#[test]
fn dropn_of_nothing_is_nothing() {
    assert_eq!(dropn::<u8>(&[], 3), []);
}

#[test]
fn dropn_drops_one_of_every_n() {
    let xs: Vec<usize> = (1..=20).collect();
    assert_eq!(dropn(&xs, 3).len(), 20 - 20 / 3);
    assert_eq!(dropn(&xs, 7).len(), 20 - 20 / 7);
    assert_eq!(dropn(&xs, 20).len(), 19);
    assert_eq!(
        dropn(&xs, 4),
        [1, 2, 3, 5, 6, 7, 9, 10, 11, 13, 14, 15, 17, 18, 19]
    );
}

#[test]
fn replicate_lengthens_by_the_factor() {
    let xs: Vec<usize> = (1..=7).collect();
    assert_eq!(replicate(&xs, 5).len(), 35);
    assert_eq!(replicate(&xs, 5)[17], 4);
}
