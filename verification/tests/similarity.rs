use correct_word::levenshtein::{levenshtein_distance, levenshtein_similarity};
use correct_word::similarity::Similarity;

fn fraction(a: &str, b: &str) -> (usize, usize) {
    let score = levenshtein_similarity(a.to_string(), b.to_string());
    (score.numerator(), score.denominator())
}

fn score(numer: usize, denom: usize) -> Similarity {
    Similarity::new(numer, denom).unwrap()
}

#[test]
fn similarity_of_hilo_and_hello_is_three_fifths() {
    assert_eq!(fraction("hilo", "hello"), (3, 5));
}

#[test]
fn similarity_of_he_and_each_option() {
    assert_eq!(fraction("he", "hello"), (2, 5));
    assert_eq!(fraction("he", "world"), (0, 5));
    assert_eq!(fraction("he", "hi"), (1, 2));
}

#[test]
fn similarity_to_self_is_one() {
    for text in ["a", "hello", "correct word", "żółć", "日本語"] {
        let (numer, denom) = fraction(text, text);
        assert_eq!(numer, denom);
        assert!(denom > 0);
        let same = levenshtein_similarity(text.to_string(), text.to_string());
        assert!(same.is_same_as(&Similarity::one()));
    }
}

#[test]
fn similarity_of_two_empty_texts_is_one() {
    assert_eq!(fraction("", ""), (1, 1));
    let both_empty = levenshtein_similarity(String::new(), String::new());
    assert!(both_empty.is_same_as(&Similarity::one()));
    let as_float = both_empty.numerator() as f64 / both_empty.denominator() as f64;
    assert_eq!(as_float, 1.0);
}

#[test]
fn similarity_of_nothing_in_common_is_zero() {
    assert_eq!(fraction("abc", "xyz"), (0, 3));
    assert_eq!(fraction("", "xyz"), (0, 3));
    assert_eq!(fraction("abc", ""), (0, 3));
    let nothing = levenshtein_similarity("abc".to_string(), "xyz".to_string());
    assert!(nothing.is_same_as(&Similarity::zero()));
}

#[test]
fn similarity_is_one_minus_distance_over_longer_length() {
    let words = ["a", "he", "hi", "hello", "world", "kitten", "sitting", "日本語"];
    for a in words {
        for b in words {
            let longest = a.chars().count().max(b.chars().count());
            let distance = levenshtein_distance(a.to_string(), b.to_string());
            let (numer, denom) = fraction(a, b);
            assert_eq!(denom, longest);
            assert_eq!(numer, longest - distance);
            let as_float = numer as f64 / denom as f64;
            let formula = 1.0 - distance as f64 / longest as f64;
            assert!((as_float - formula).abs() < 1e-12);
        }
    }
}

#[test]
fn similarity_counts_characters_not_bytes() {
    assert_eq!(fraction("日本語", "日本"), (2, 3));
    assert_eq!(fraction("na\u{ef}ve", "naive"), (4, 5));
}

#[test]
fn similarity_is_symmetric() {
    assert_eq!(fraction("kitten", "sitting"), fraction("sitting", "kitten"));
    assert_eq!(fraction("he", "hello"), fraction("hello", "he"));
    assert_eq!(fraction("kitten", "sitting"), (4, 7));
}

#[test]
fn score_is_made_only_from_zero_to_one() {
    assert!(Similarity::new(0, 1).is_some());
    assert!(Similarity::new(1, 1).is_some());
    assert!(Similarity::new(2, 5).is_some());
    assert!(Similarity::new(5, 5).is_some());
    assert!(Similarity::new(0, 0).is_none());
    assert!(Similarity::new(1, 0).is_none());
    assert!(Similarity::new(6, 5).is_none());
    assert!(Similarity::new(usize::MAX, usize::MAX).is_some());
}

#[test]
fn score_keeps_its_fraction() {
    let two_fifths = score(2, 5);
    assert_eq!(two_fifths.numerator(), 2);
    assert_eq!(two_fifths.denominator(), 5);
    assert_eq!((Similarity::zero().numerator(), Similarity::zero().denominator()), (0, 1));
    assert_eq!((Similarity::one().numerator(), Similarity::one().denominator()), (1, 1));
    assert_eq!((Similarity::half().numerator(), Similarity::half().denominator()), (1, 2));
}

#[test]
fn scores_compare_as_numbers() {
    assert!(score(2, 5).is_less_than(&score(1, 2)));
    assert!(!score(1, 2).is_less_than(&score(2, 5)));
    assert!(!score(1, 2).is_less_than(&score(2, 4)));
    assert!(!score(2, 4).is_less_than(&score(1, 2)));
    assert!(score(1, 2).is_same_as(&score(2, 4)));
    assert!(!score(1, 2).is_same_as(&score(2, 5)));
    assert!(score(0, 7).is_same_as(&Similarity::zero()));
    assert!(score(7, 7).is_same_as(&Similarity::one()));
    assert!(Similarity::zero().is_less_than(&Similarity::one()));
    assert!(!Similarity::one().is_less_than(&Similarity::one()));
}

#[test]
fn scores_compare_without_overflow() {
    let big = usize::MAX;
    assert!(score(big - 1, big).is_less_than(&score(big, big)));
    assert!(!score(big, big).is_less_than(&score(big - 1, big)));
    assert!(score(big - 2, big - 1).is_less_than(&score(big - 1, big)));
    assert!(score(big, big).is_same_as(&Similarity::one()));
}
