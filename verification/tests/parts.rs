use denede::arith::{add_clamped, clamp, hits, mul_clamped, sub_clamped, sum};
use denede::evaluate::{apply, fold};
use denede::kind::Word;
use denede::rules::{
    bound_all, bound_one, count_below, count_maxed, find_open, find_top, merge, widen,
};
use denede::select::{drop, find_pivot, keep};
use denede::text::{
    chars_of, digit, letter, push_integer, push_natural, push_text, read_number, slice, space,
    split,
};
use denede::DiceArithmeticOp::{Add, Divide, Multiply, Subtract};
use denede::DieKind;

fn written(i: i64) -> String {
    let mut out = Vec::new();
    push_integer(&mut out, i);
    out.iter().collect()
}

#[test]
fn texts_are_taken_apart_into_characters() {
    assert_eq!(chars_of(""), Vec::<char>::new());
    assert_eq!(chars_of("2d6"), vec!['2', 'd', '6']);
    assert_eq!(chars_of("\u{e9}\u{1f3b2}!"), vec!['\u{e9}', '\u{1f3b2}', '!']);
    assert_eq!(slice(&chars_of("2d6k3"), 1, 3), vec!['d', '6']);
    assert_eq!(slice(&chars_of("2d6k3"), 2, 2), Vec::<char>::new());
}

#[test]
fn characters_are_told_apart() {
    for c in ['0', '5', '9'] {
        assert!(digit(c) && !letter(c) && !space(c));
    }
    for c in ['a', 'm', 'z'] {
        assert!(letter(c) && !digit(c) && !space(c));
    }
    for c in ['/', ':', '`', '{', 'A', 'Z', '\u{e9}', '\u{660}', '\u{ff11}'] {
        assert!(!digit(c) && !letter(c), "{c:?}");
    }
    for c in [' ', '\t', '\n', '\r', '\u{a0}', '\u{3000}'] {
        assert!(space(c), "{c:?}");
    }
}

#[test]
fn numbers_are_read_from_digits() {
    let v = chars_of("x65535y007z65536w");
    assert_eq!(read_number(&v, 1, 6), Some(65535));
    assert_eq!(read_number(&v, 7, 10), Some(7));
    assert_eq!(read_number(&v, 11, 16), None);
    assert_eq!(read_number(&v, 0, 6), None);
    assert_eq!(read_number(&v, 1, 7), None);
    assert_eq!(read_number(&v, 3, 3), None);
    assert_eq!(read_number(&chars_of("0000000000000000000000012"), 0, 25), Some(12));
    assert_eq!(read_number(&chars_of("99999999999999999999999999"), 0, 26), None);
    assert_eq!(read_number(&chars_of("\u{661}\u{662}"), 0, 2), None);
}

#[test]
fn numbers_are_written_in_digits() {
    assert_eq!(written(0), "0");
    assert_eq!(written(7), "7");
    assert_eq!(written(10), "10");
    assert_eq!(written(65535), "65535");
    assert_eq!(written(-1), "-1");
    assert_eq!(written(-120), "-120");
    assert_eq!(written(i64::MAX), "9223372036854775807");
    assert_eq!(written(i64::MIN), "-9223372036854775808");
    let mut out = vec!['n', '='];
    push_natural(&mut out, u64::MAX);
    push_text(&mut out, "!");
    assert_eq!(out.iter().collect::<String>(), "n=18446744073709551615!");
}

#[test]
fn what_is_written_is_read_back() {
    for n in (0..=65535u16).step_by(7).chain([65535]) {
        let mut out = Vec::new();
        push_natural(&mut out, n as u64);
        assert_eq!(read_number(&out, 0, out.len()), Some(n));
    }
}

#[test]
fn texts_are_split_at_what_parts_them() {
    let v = chars_of("a\nb\n");
    assert_eq!(split(&v, true), vec![(0, 1), (2, 3), (4, 4)]);
    assert_eq!(split(&chars_of(""), true), vec![(0, 0)]);
    assert_eq!(split(&chars_of("2d6+5"), false), vec![(0, 3), (4, 5)]);
    assert_eq!(split(&chars_of("-2*/3"), false), vec![(0, 0), (1, 2), (3, 3), (4, 5)]);
    assert_eq!(split(&chars_of("2d6+5"), true), vec![(0, 5)]);
}

#[test]
fn words_are_read_from_letters() {
    let words = [
        ("d", Word::D),
        ("k", Word::K),
        ("r", Word::R),
        ("rk", Word::Rk),
        ("rc", Word::Rc),
        ("s", Word::S),
        ("e", Word::E),
        ("es", Word::Es),
        ("o", Word::O),
        ("dh", Word::Dh),
        ("kl", Word::Kl),
        ("u", Word::U),
        ("l", Word::L),
        ("a", Word::A),
        ("h", Word::H),
        ("oe", Word::Oe),
        ("oel", Word::Oel),
    ];
    for (text, word) in words {
        let v = chars_of(text);
        assert_eq!(Word::read(&v, 0, v.len()), Some(word), "{text}");
    }
    for text in ["", "x", "dd", "kh", "oeh", "oell", "sue", "dk", "lk", "ld", "eo", "b"] {
        let v = chars_of(text);
        assert_eq!(Word::read(&v, 0, v.len()), None, "{text}");
    }
}

#[test]
fn operations_are_named_by_their_words() {
    assert_eq!(DieKind::of_one(Word::D), Some(DieKind::Drop));
    assert_eq!(DieKind::of_one(Word::Es), Some(DieKind::ExplodingSuccess));
    assert_eq!(DieKind::of_one(Word::Oe), Some(DieKind::OpenEndedImplicit));
    assert_eq!(DieKind::of_one(Word::A), None);
    assert_eq!(DieKind::of_one(Word::H), None);
    assert_eq!(DieKind::of_one(Word::Oel), None);
    assert_eq!(DieKind::of_two(Word::E, Word::S), Some(DieKind::ExplodingSuccess));
    assert_eq!(DieKind::of_two(Word::A, Word::U), Some(DieKind::AddUpperBound));
    assert_eq!(DieKind::of_two(Word::A, Word::L), Some(DieKind::AddLowerBound));
    assert_eq!(DieKind::of_two(Word::S, Word::U), Some(DieKind::SubtractUpperBound));
    assert_eq!(DieKind::of_two(Word::S, Word::L), Some(DieKind::SubtractLowerBound));
    assert_eq!(DieKind::of_two(Word::Oel, Word::H), Some(DieKind::OpenEnded));
    assert_eq!(DieKind::of_two(Word::S, Word::E), None);
    assert_eq!(DieKind::of_two(Word::U, Word::A), None);
    assert_eq!(DieKind::of_two(Word::D, Word::D), None);
    assert_eq!(DieKind::Regular.arity(), 0);
    assert_eq!(DieKind::Keep.arity(), 1);
    assert_eq!(DieKind::Explode.arity(), 1);
    assert_eq!(DieKind::ExplodingSuccess.arity(), 2);
    assert_eq!(DieKind::OpenEnded.arity(), 2);
    assert_eq!(DieKind::OpenEndedImplicit.arity(), 1);
    assert_eq!(DieKind::SubtractLowerBound.arity(), 2);
}

#[test]
fn the_pivot_is_the_value_at_its_rank() {
    let values = vec![3u16, 6, 1, 6, 2, 3, 5];
    let mut sorted = values.clone();
    sorted.sort();
    for k in 1..=values.len() {
        assert_eq!(find_pivot(&values, k, true), sorted[k - 1]);
        assert_eq!(find_pivot(&values, k, false), sorted[values.len() - k]);
    }
    assert_eq!(find_pivot(&vec![0, 65535], 1, true), 0);
    assert_eq!(find_pivot(&vec![0, 65535], 1, false), 65535);
    assert_eq!(find_pivot(&vec![7], 1, true), 7);
}

#[test]
fn keeping_and_dropping_walk_in_order() {
    let values = vec![3u16, 6, 1, 6, 2, 3, 5];
    assert_eq!(keep(&values, 3, false), vec![6, 6, 5]);
    assert_eq!(keep(&values, 4, false), vec![3, 6, 6, 3]);
    assert_eq!(keep(&values, 3, true), vec![3, 1, 2]);
    assert_eq!(keep(&values, 2, true), vec![1, 2]);
    assert_eq!(drop(&values, 3, false), vec![6, 6, 3, 5]);
    assert_eq!(drop(&values, 2, true), vec![3, 1, 2, 3, 5]);
    assert_eq!(drop(&values, 4, true), vec![1, 2, 5]);
    assert_eq!(keep(&Vec::new(), 0, true), Vec::<u16>::new());
    assert_eq!(drop(&Vec::new(), 0, true), Vec::<u16>::new());
}

#[test]
fn values_are_counted() {
    assert_eq!(count_below(&vec![1, 5, 2, 6, 3], 3), 2);
    assert_eq!(count_below(&vec![1, 5, 2, 6, 3], 0), 0);
    assert_eq!(count_below(&vec![], 3), 0);
    assert_eq!(count_maxed(&vec![6, 5, 6, 6, 3], 6), 3);
    assert_eq!(count_maxed(&vec![6, 5, 6, 6, 3], 4), 0);
    assert_eq!(hits(&vec![3, 5, 6, -1], 4), 2);
    assert_eq!(hits(&vec![3, 5, 6, -1], 0), 3);
    assert_eq!(widen(&vec![0, 7, 65535]), vec![0, 7, 65535]);
}

#[test]
fn replacements_are_handed_out_in_order() {
    assert_eq!(merge(&vec![1, 5, 2, 6], &vec![4, 3], 3, false), vec![4, 5, 3, 6]);
    assert_eq!(merge(&vec![1, 5, 2, 6], &vec![4, 3], 3, true), vec![4, 5, 3, 6]);
    assert_eq!(merge(&vec![2, 2], &vec![1, 3], 3, false), vec![1, 3]);
    assert_eq!(merge(&vec![2, 2], &vec![1, 3], 3, true), vec![2, 3]);
    assert_eq!(merge(&vec![1, 1, 1], &vec![6], 3, false), vec![6, 1, 1]);
    assert_eq!(merge(&vec![1, 1, 1], &vec![], 3, true), vec![1, 1, 1]);
    assert_eq!(merge(&vec![5, 6], &vec![1, 2], 3, false), vec![5, 6]);
}

#[test]
fn a_value_is_moved_and_bounded() {
    assert_eq!(bound_one(6, 0, 4, true), 4);
    assert_eq!(bound_one(3, 0, 4, true), 3);
    assert_eq!(bound_one(3, 0, 4, false), 4);
    assert_eq!(bound_one(6, 0, 4, false), 6);
    assert_eq!(bound_one(6, 2, 7, true), 7);
    assert_eq!(bound_one(2, -3, 7, true), 0);
    assert_eq!(bound_one(2, -3, 0, false), 0);
    assert_eq!(bound_one(2, -3, 1, false), 1);
    assert_eq!(bound_one(65535, 65535, 0, false), 131070);
    assert_eq!(bound_one(0, -65535, 65535, true), 0);
    assert_eq!(bound_all(&vec![6, 2, 4, 5], -3, 2, true), vec![2, 0, 1, 2]);
}

#[test]
fn the_next_die_to_roll_on_is_found() {
    assert_eq!(find_top(&vec![6, 3, 6, 1], 0, 6), 0);
    assert_eq!(find_top(&vec![6, 3, 6, 1], 1, 6), 2);
    assert_eq!(find_top(&vec![6, 3, 6, 1], 3, 6), 4);
    assert_eq!(find_top(&vec![6, 3, 6, 1], 9, 6), 4);
    assert_eq!(find_open(&vec![50, 3, 97, 10], 0, 5, 96), 1);
    assert_eq!(find_open(&vec![50, 3, 97, 10], 2, 5, 96), 2);
    assert_eq!(find_open(&vec![50, 3, 97, 10], 3, 5, 96), 4);
}

#[test]
fn arithmetic_stays_in_thirty_two_bits() {
    assert_eq!(clamp(5), 5);
    assert_eq!(clamp(i64::MAX), i32::MAX);
    assert_eq!(clamp(i64::MIN), i32::MIN);
    assert_eq!(clamp(2147483648), i32::MAX);
    assert_eq!(clamp(-2147483649), i32::MIN);
    assert_eq!(add_clamped(i32::MAX, 1), i32::MAX);
    assert_eq!(add_clamped(i32::MIN, -1), i32::MIN);
    assert_eq!(add_clamped(-3, 5), 2);
    assert_eq!(sub_clamped(i32::MIN, 1), i32::MIN);
    assert_eq!(sub_clamped(0, i32::MIN), i32::MAX);
    assert_eq!(sub_clamped(3, 5), -2);
    assert_eq!(mul_clamped(i32::MIN, i32::MIN), i32::MAX);
    assert_eq!(mul_clamped(i32::MIN, i32::MAX), i32::MIN);
    assert_eq!(mul_clamped(-3, 5), -15);
    assert_eq!(sum(&vec![]), 0);
    assert_eq!(sum(&vec![i32::MAX, i32::MAX, i32::MIN, i32::MIN]), -2);
    assert_eq!(sum(&vec![i32::MIN, i32::MIN]), i32::MIN);
}

#[test]
fn a_total_takes_one_term_after_the_other() {
    assert_eq!(apply(3, Add, 4), 7);
    assert_eq!(apply(3, Subtract, 4), -1);
    assert_eq!(apply(3, Multiply, 4), 12);
    assert_eq!(apply(3, Divide, 4), 3);
    assert_eq!(fold(&vec![], &vec![]), 0);
    assert_eq!(fold(&vec![2, 3, 4], &vec![Add, Add, Multiply]), 20);
    assert_eq!(fold(&vec![2, 3, 4], &vec![Subtract, Multiply, Subtract]), -10);
    assert_eq!(fold(&vec![i32::MAX, 2, 1], &vec![Add, Multiply, Subtract]), i32::MAX - 1);
}
