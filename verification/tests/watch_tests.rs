use ugdown::watch::chunk_fraction;
use ugdown::watch::watch;
use ugdown::watch::watch_progress;
use ugdown::watch::FRACTION_ONE;

#[test]
fn progress_sequence_in_order() {
    let samples = watch_progress(b"12.5%...37%...100%");
    assert_eq!(vec![125000u64, 370000, 1000000], samples);
}

#[test]
fn one_whole_is_the_fraction_unit() {
    assert_eq!(vec![FRACTION_ONE], watch_progress(b"100%"));
}

#[test]
fn chunks_without_a_numeral_are_ignored() {
    assert_eq!(None, chunk_fraction(b"...%"));
    assert_eq!(None, chunk_fraction(b"abc%"));
    assert_eq!(None, chunk_fraction(b"no percent"));
    assert_eq!(None, chunk_fraction(b""));
    let samples = watch_progress(b"...%50%junk%");
    assert_eq!(vec![500000u64], samples);
}

#[test]
fn numerals_take_the_longest_valid_suffix() {
    assert_eq!(Some(500000), chunk_fraction(b"50%"));
    assert_eq!(Some(125000), chunk_fraction(b"  12.5%"));
    // a second decimal point cannot join the numeral
    assert_eq!(Some(50000), chunk_fraction(b"1..5%"));
    // a trailing decimal point still reads as the whole number
    assert_eq!(Some(370000), chunk_fraction(b"37.%"));
    // a leading decimal point is not part of a numeral
    assert_eq!(Some(50000), chunk_fraction(b".5%"));
}

#[test]
fn fractional_digits_beyond_the_fourth_are_dropped() {
    assert_eq!(Some(123456), chunk_fraction(b"12.34567%"));
    assert_eq!(Some(1), chunk_fraction(b"0.0001%"));
    assert_eq!(Some(0), chunk_fraction(b"0.00001%"));
}

#[test]
fn values_above_one_whole_pass_through() {
    assert_eq!(Some(2500000), chunk_fraction(b"250%"));
}

#[test]
fn watch_cuts_and_trims_chunks() {
    let chunks = watch(b"  a \nb\nc", 10);
    assert_eq!(vec!["a".to_string(), "b".to_string(), "c".to_string()], chunks);
    let chunks = watch(b"12.5%...37%", 37);
    assert_eq!(vec!["12.5%".to_string(), "...37%".to_string()], chunks);
}
