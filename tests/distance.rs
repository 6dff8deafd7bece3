use std::cmp::{max, min};

use unicode_segmentation::UnicodeSegmentation;
use weighted_levenshtein::{distance, EditWeight};

#[test]
fn identical_strings_should_have_zero_distance() {
    assert_eq!(distance("abc".as_bytes(), "abc".as_bytes()), 0);
}

#[test]
fn insertions_should_increase_the_distance() {
    assert_eq!(distance("abc".as_bytes(), "abcc".as_bytes()), 1);
    assert_eq!(distance("abc".as_bytes(), "aabc".as_bytes()), 1);
    assert_eq!(distance("abc".as_bytes(), "abbc".as_bytes()), 1);
}

#[test]
fn deletions_should_increase_the_distance() {
    assert_eq!(distance("abcd".as_bytes(), "abc".as_bytes()), 1);
    assert_eq!(distance("aabc".as_bytes(), "abc".as_bytes()), 1);
    assert_eq!(distance("abbc".as_bytes(), "abc".as_bytes()), 1);
}

#[test]
fn bug_insert_at_beginning_of_longest_sequence() {
    // In order to change the longest sequence into the shortest, we
    // must:
    //
    // - insert an item ("x" -> cost: 1),
    // - copy some items ("abc" -> cost: 0),
    // - remove the trailing items ("defg" -> cost 4).
    //
    // The first insertion was wrongly counted as zero-cost.
    assert_eq!(distance("abcdefg".as_bytes(), "xabc".as_bytes()), 5);
}

#[test]
fn substitutions_should_increase_the_distance() {
    assert_eq!(distance("abc".as_bytes(), "xbc".as_bytes()), 1);
    assert_eq!(distance("abc".as_bytes(), "axc".as_bytes()), 1);
    assert_eq!(distance("abc".as_bytes(), "abx".as_bytes()), 1);
}

#[test]
fn should_work_on_integer_slices() {
    assert_eq!(distance(&vec![0, 1, 2], &vec![0, 1, 2]), 0);
    assert_eq!(distance(&vec![0, 1, 2], &vec![0, 0, 1, 2]), 1);
    assert_eq!(distance(&vec![0, 1, 2], &vec![1, 2]), 1);
    assert_eq!(distance(&vec![0, 1, 2], &vec![3, 1, 2]), 1);
}

#[test]
fn test_grapheme_distance() {
    assert_eq!(
        distance(
            &"\u{1F1EC}\u{1F1E7}\u{1F1E7}\u{1F1EC}"
                .graphemes(true)
                .collect::<Vec<&str>>(),
            &"\u{1F1EC}\u{1F1E7}\u{1F3F4}\u{E0067}\u{E0062}\u{E0073}\u{E0063}\u{E0074}\u{E007F}"
                .graphemes(true)
                .collect::<Vec<&str>>(),
        ),
        1
    );
}

fn words(s: &str) -> Vec<&str> {
    s.split(' ').collect::<Vec<&str>>()
}

#[test]
fn should_work_on_sentences() {
    assert_eq!(
        distance(
            &words("The quick brown fox jumps over the lazy dog"),
            &words("The quick brown fox jumps over the lazy dog")
        ),
        0
    );
    assert_eq!(
        distance(
            &words("The quick brown fox jumps over the lazy dog"),
            &words("The quick brown fox jumps over the very lazy dog")
        ),
        1
    );
    assert_eq!(
        distance(
            &words("The quick brown fox jumps over the lazy dog"),
            &words("The brown fox jumps over the lazy dog")
        ),
        1
    );
    assert_eq!(
        distance(
            &words("The quick brown fox jumps over the lazy dog"),
            &words("The quick brown cat jumps over the lazy dog")
        ),
        1
    );
}

#[test]
fn shortcut_cases() {
    assert_eq!(distance("".as_bytes(), "foo".as_bytes()), 3);
    assert_eq!(distance("a".as_bytes(), "foo".as_bytes()), 3);
    assert_eq!(distance("o".as_bytes(), "foo".as_bytes()), 2);
}

#[derive(PartialEq, Debug)]
enum Lett {
    A,
    B,
    C,
    D,
}

impl EditWeight for Lett {
    fn add_cost(&self) -> usize {
        1
    }
    fn rm_cost(&self) -> usize {
        1
    }
    fn sub_cost(&self, other: &Self) -> usize {
        if self == other {
            0
        } else {
            1
        }
    }
}

#[test]
fn should_work_on_enum_slices() {
    assert_eq!(
        distance(&[Lett::B, Lett::A, Lett::D], &[Lett::C, Lett::A, Lett::B]),
        2
    );
}

#[derive(PartialEq)]
enum Money {
    Nickel,
    Quarter,
    Dollar,
}

impl EditWeight for Money {
    fn add_cost(&self) -> usize {
        match self {
            Money::Nickel => 5,
            Money::Quarter => 25,
            Money::Dollar => 100,
        }
    }
    fn rm_cost(&self) -> usize {
        self.add_cost()
    }
    fn sub_cost(&self, other: &Self) -> usize {
        max(self.add_cost(), other.add_cost()) - min(self.add_cost(), other.add_cost())
    }
}

#[test]
fn test_money() {
    assert_eq!(
        distance(
            &[Money::Dollar, Money::Nickel, Money::Dollar],
            &[Money::Dollar, Money::Nickel, Money::Quarter]
        ),
        75
    );
}

#[derive(PartialEq, Debug)]
enum P {
    A,
    B,
    C,
    E,
}

impl EditWeight for P {
    fn add_cost(&self) -> usize {
        match self {
            P::C => 2,
            P::E => 3,
            _ => 1,
        }
    }
    fn rm_cost(&self) -> usize {
        self.add_cost()
    }
    fn sub_cost(&self, other: &Self) -> usize {
        if self == other {
            0
        } else {
            std::cmp::max(self.add_cost(), other.add_cost())
        }
    }
}

#[test]
fn test_expensive_subst() {
    assert_eq!(distance(&[P::B, P::A, P::B], &[P::B, P::A, P::E]), 3);
}

#[test]
fn test_complex() {
    assert_eq!(distance(&[P::B, P::E, P::C, P::E], &[P::B, P::C, P::E]), 3);
}

#[test]
fn test_cheap_delete() {
    assert_eq!(distance(&[P::B, P::E], &[P::B, P::A, P::E]), 1);
}
