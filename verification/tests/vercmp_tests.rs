use cower_rs::vercmp::{part_cmp_str, vercmp_str};
use std::cmp::Ordering;

#[test]
fn release_numbers_order_versions() {
    assert_eq!(vercmp_str("1.0-1", "1.0-2"), Ordering::Less);
    assert_eq!(vercmp_str("1.0-2", "2.0-1"), Ordering::Less);
    assert_eq!(vercmp_str("2.0-1", "1.0-1"), Ordering::Greater);
}

#[test]
fn a_version_compares_equal_to_itself() {
    assert_eq!(vercmp_str("1.0", "1.0"), Ordering::Equal);
    assert_eq!(vercmp_str("", ""), Ordering::Equal);
    assert_eq!(vercmp_str("2:1.5rc-3", "2:1.5rc-3"), Ordering::Equal);
}

#[test]
fn digit_runs_compare_numerically() {
    assert_eq!(vercmp_str("1.9", "1.10"), Ordering::Less);
    assert_eq!(vercmp_str("1.002", "1.2"), Ordering::Equal);
    assert_eq!(vercmp_str("10", "9"), Ordering::Greater);
    assert_eq!(
        vercmp_str("1.18446744073709551616", "1.18446744073709551615"),
        Ordering::Greater
    );
}

#[test]
fn letter_runs_compare_lexically() {
    assert_eq!(vercmp_str("abc", "abd"), Ordering::Less);
    assert_eq!(vercmp_str("ab", "abc"), Ordering::Less);
    assert_eq!(vercmp_str("beta", "alpha"), Ordering::Greater);
}

#[test]
fn digits_beat_letters() {
    assert_eq!(vercmp_str("1.0a", "1.0.1"), Ordering::Less);
    assert_eq!(part_cmp_str("a", "1"), Ordering::Less);
}

#[test]
fn running_out_against_digits_is_older_against_letters_newer() {
    assert_eq!(vercmp_str("1.0", "1.0.1"), Ordering::Less);
    assert_eq!(vercmp_str("1.0", "1.0a"), Ordering::Greater);
    assert_eq!(vercmp_str("1.0a", "1.0"), Ordering::Less);
}

#[test]
fn epochs_dominate_the_rest() {
    assert_eq!(vercmp_str("1:0.1", "9.9"), Ordering::Greater);
    assert_eq!(vercmp_str("1:1.0", "2:0.1", ), Ordering::Less);
    assert_eq!(vercmp_str("0:1.0", "1.0"), Ordering::Equal);
}

#[test]
fn a_release_on_one_side_only_is_ignored() {
    assert_eq!(vercmp_str("1.0-1", "1.0"), Ordering::Equal);
    assert_eq!(vercmp_str("1.0", "1.0-2"), Ordering::Equal);
}

#[test]
fn separators_only_delimit_segments() {
    assert_eq!(vercmp_str("1_0", "1.0"), Ordering::Equal);
    assert_eq!(vercmp_str("1..0", "1.0"), Ordering::Equal);
}
