use scriptlets::arrays::{mod_array, rem_array};

fn centred() -> [i64; 13] {
    core::array::from_fn(|i| i as i64 - 6)
}

#[test]
fn euclidean_remainder_by_three() {
    assert_eq!(mod_array(centred(), 3), [0, 1, 2, 0, 1, 2, 0, 1, 2, 0, 1, 2, 0]);
}

#[test]
fn signed_remainder_by_three() {
    assert_eq!(rem_array(centred(), 3), [0, -2, -1, 0, -2, -1, 0, 1, 2, 0, 1, 2, 0]);
}

#[test]
fn euclidean_remainder_of_extremes() {
    assert_eq!(mod_array([-1, i64::MIN, i64::MAX], 255), [254, 127, 127]);
}

#[test]
fn signed_remainder_wraps_into_i8() {
    assert_eq!(rem_array([200, -200, 127, 128], 255), [-56, 56, 127, -128]);
}

#[test]
fn empty_arrays() {
    assert_eq!(mod_array([], 5), []);
    assert_eq!(rem_array([], 5), []);
}
