use image_analysis::ratio::fraction_less;

#[test]
fn smaller_fraction_is_less() {
    assert!(fraction_less(1, 3, 1, 2));
    assert!(!fraction_less(1, 2, 1, 3));
}

#[test]
fn equal_fractions_are_not_less() {
    assert!(!fraction_less(2, 4, 1, 2));
    assert!(!fraction_less(1, 2, 2, 4));
    assert!(!fraction_less(0, 5, 0, 7));
}

#[test]
fn whole_parts_decide_first() {
    assert!(fraction_less(7, 2, 9, 2));
    assert!(!fraction_less(9, 2, 7, 2));
    assert!(fraction_less(0, 1, 1, 1000));
}

#[test]
fn close_fractions_are_told_apart() {
    assert!(fraction_less(355, 113, 22, 7));
    assert!(!fraction_less(22, 7, 355, 113));
    assert!(fraction_less(1000000, 1000001, 1000001, 1000002));
}

#[test]
fn products_beyond_the_word_size_are_compared_exactly() {
    let big: u128 = u128::MAX;
    assert!(fraction_less(big - 1, big, big, big));
    assert!(!fraction_less(big, big, big - 1, big));
    assert!(fraction_less(big - 2, big - 1, big - 1, big));
    assert!(!fraction_less(big, big - 1, big, big - 1));
}
