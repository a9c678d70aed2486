use dbg_ranges::DebugAdjacent;
use dbg_ranges::DebugAdjacentBy;
use dbg_ranges::DebugText;
use dbg_ranges::IsAdjacent;
use dbg_ranges::debug_adjacent;
use dbg_ranges::debug_adjacent_by;

#[test]
fn test_output_empty_iff_input_empty() {
    let empty: &[u64] = &[];
    assert_eq!(DebugAdjacent::new(empty).render(), "");
    let one: &[u64] = &[0];
    assert!(!DebugAdjacent::new(one).render().is_empty());
    let two: &[u64] = &[3, 9];
    assert!(!DebugAdjacent::new(two).render().is_empty());
}

#[test]
fn test_single_element_is_its_text() {
    assert_eq!(DebugAdjacent::new(&[7u8]).render(), "7");
    assert_eq!(DebugAdjacent::new(&[-5i8]).render(), "-5");
    assert_eq!(DebugAdjacent::new(&[0u32]).render(), "0");
    assert_eq!(7u8.debug_text(), "7");
    assert_eq!((-5i8).debug_text(), "-5");
}

#[test]
fn test_no_adjacent_pairs_is_plain_join() {
    let input: &[u32] = &[5, 9, 7, 100, 3];
    assert_eq!(DebugAdjacent::new(input).render(), "5, 9, 7, 100, 3");
    let down: &[u16] = &[3, 2, 1];
    assert_eq!(DebugAdjacent::new(down).render(), "3, 2, 1");
}

#[test]
fn test_run_shows_endpoints_only() {
    let input: &[u32] = &[1, 2, 3, 4, 5];
    assert_eq!(DebugAdjacent::new(input).render(), "1-5");
    let input: &[u32] = &[9, 1, 2, 3, 9];
    assert_eq!(DebugAdjacent::new(input).render(), "9, 1-3, 9");
    let input: &[i8] = &[-3, -2, -1, 0, 1];
    assert_eq!(DebugAdjacent::new(input).render(), "-3-1");
}

#[test]
fn test_two_element_run_collapses() {
    let input: &[u32] = &[4, 5];
    assert_eq!(DebugAdjacent::new(input).render(), "4-5");
}

#[test]
fn test_max_value_never_merges() {
    assert_eq!(DebugAdjacent::new(&[u8::MAX, 0u8]).render(), "255, 0");
    assert_eq!(DebugAdjacent::new(&[u16::MAX, 0u16]).render(), "65535, 0");
    assert_eq!(
        DebugAdjacent::new(&[u64::MAX, 0u64]).render(),
        "18446744073709551615, 0"
    );
    assert_eq!(
        DebugAdjacent::new(&[i64::MAX, i64::MIN]).render(),
        "9223372036854775807, -9223372036854775808"
    );
    assert!(!u8::MAX.is_adjacent(&0));
    assert!(!i32::MAX.is_adjacent(&i32::MIN));
    assert!(!char::MAX.is_adjacent(&'\0'));
}

#[test]
fn test_signed_min_run_double_hyphen() {
    let input: &[i32] = &[i32::MIN, i32::MIN + 1, 42];
    assert_eq!(
        DebugAdjacent::new(input).render(),
        "-2147483648--2147483647, 42"
    );
    let input: &[i8] = &[-2, -1];
    assert_eq!(DebugAdjacent::new(input).render(), "-2--1");
}

#[test]
fn test_custom_predicate_successor() {
    let input: &[u32] = &[10, 12, 13, 14, 15, 20];
    let dump = DebugAdjacentBy::new(input, |&a, &b| a + 1 == b);
    assert_eq!(dump.render(), "10, 12-15, 20");
}

#[test]
fn test_nontransitive_predicate_groups_pairwise() {
    // True only for the exact pairs (1, 2) and (2, 4); false for (1, 4).
    // The chain still becomes one run, since each consecutive pair holds.
    let pred = |&a: &u32, &b: &u32| (a, b) == (1, 2) || (a, b) == (2, 4);
    assert!(!pred(&1, &4));
    let input: &[u32] = &[1, 2, 4];
    let dump = DebugAdjacentBy::new(input, pred);
    assert_eq!(dump.render(), "1-4");
}

#[test]
fn test_custom_predicate_same_parity_step_two() {
    let input: &[u32] = &[1, 3, 5, 8, 10, 7];
    let dump = DebugAdjacentBy::new(input, |&a, &b| a % 2 == b % 2 && a + 2 == b);
    assert_eq!(dump.render(), "1-5, 8-10, 7");
}

#[test]
fn test_range_separator_is_configurable() {
    let input: &[u32] = &[10, 11, 20];
    let mut dump = DebugAdjacent::new(input);
    dump.sep = "..";
    assert_eq!(dump.render(), "10..11, 20");
    let mut dump = DebugAdjacentBy::new(input, |&a, &b| a + 1 == b);
    dump.sep = "..=";
    assert_eq!(dump.render(), "10..=11, 20");
}

#[test]
fn test_is_adjacent_integers() {
    assert!(4u32.is_adjacent(&5));
    assert!(!4u32.is_adjacent(&6));
    assert!(!5u32.is_adjacent(&4));
    assert!(!4u32.is_adjacent(&4));
    assert!((-1i8).is_adjacent(&0));
    assert!(i8::MIN.is_adjacent(&(i8::MIN + 1)));
    assert!(254u8.is_adjacent(&255));
    assert!(u128::MAX - 1 != u128::MAX && (u128::MAX - 1).is_adjacent(&u128::MAX));
    assert!(!u128::MAX.is_adjacent(&0));
}

#[test]
fn test_is_adjacent_chars() {
    assert!('a'.is_adjacent(&'b'));
    assert!(!'b'.is_adjacent(&'a'));
    assert!('0'.is_adjacent(&'1'));
    // The code points just below and above the surrogate range are not
    // adjacent: the one in between is not a valid code point.
    assert!(!'\u{D7FF}'.is_adjacent(&'\u{E000}'));
    assert!('\u{10FFFE}'.is_adjacent(&'\u{10FFFF}'));
}

#[test]
fn test_debug_text_extremes() {
    assert_eq!(0u128.debug_text(), "0");
    assert_eq!(
        u128::MAX.debug_text(),
        "340282366920938463463374607431768211455"
    );
    assert_eq!(
        i128::MIN.debug_text(),
        "-170141183460469231731687303715884105728"
    );
    assert_eq!(
        i128::MAX.debug_text(),
        "170141183460469231731687303715884105727"
    );
    assert_eq!(1000000u64.debug_text(), "1000000");
    assert_eq!((-1i16).debug_text(), "-1");
}

#[test]
fn test_free_constructors() {
    let input: &[u32] = &[1, 2, 9];
    assert_eq!(debug_adjacent(input).render(), "1-2, 9");
    assert_eq!(
        debug_adjacent_by(input, |&a: &u32, &b: &u32| a + 1 == b).render(),
        "1-2, 9"
    );
}
