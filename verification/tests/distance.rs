use correct_word::levenshtein::levenshtein_distance;

fn distance(a: &str, b: &str) -> usize {
    levenshtein_distance(a.to_string(), b.to_string())
}

#[test]
fn distance_of_hilo_and_hello_is_two() {
    assert_eq!(distance("hilo", "hello"), 2);
}

#[test]
fn distance_of_well_known_pairs() {
    assert_eq!(distance("kitten", "sitting"), 3);
    assert_eq!(distance("saturday", "sunday"), 3);
    assert_eq!(distance("flaw", "lawn"), 2);
    assert_eq!(distance("he", "hello"), 3);
    assert_eq!(distance("he", "world"), 5);
    assert_eq!(distance("he", "hi"), 1);
    assert_eq!(distance("abc", "xyz"), 3);
}

#[test]
fn distance_to_self_is_zero() {
    for text in ["", "a", "hello", "correct word", "żółć", "日本語"] {
        assert_eq!(distance(text, text), 0);
    }
}

#[test]
fn distance_is_zero_only_for_equal_texts() {
    assert_ne!(distance("hello", "hellp"), 0);
    assert_ne!(distance("a", ""), 0);
    assert_ne!(distance("ab", "ba"), 0);
}

#[test]
fn distance_is_symmetric() {
    let pairs = [
        ("kitten", "sitting"),
        ("he", "hello"),
        ("", "abc"),
        ("flaw", "lawn"),
        ("日本語", "日本"),
        ("a", "b"),
    ];
    for (a, b) in pairs {
        assert_eq!(distance(a, b), distance(b, a));
    }
}

#[test]
fn distance_to_empty_is_length() {
    assert_eq!(distance("", ""), 0);
    assert_eq!(distance("hello", ""), 5);
    assert_eq!(distance("", "hello"), 5);
    assert_eq!(distance("a", ""), 1);
    assert_eq!(distance("", "correct"), 7);
}

#[test]
fn distance_to_empty_counts_characters_not_bytes() {
    assert_eq!("żółć".len(), 8);
    assert_eq!(distance("żółć", ""), 4);
    assert_eq!(distance("", "日本語"), 3);
}

#[test]
fn distance_compares_characters_not_bytes() {
    assert_eq!(distance("日本語", "日本"), 1);
    assert_eq!(distance("日本語", "日本人"), 1);
    assert_eq!(distance("żółć", "zolc"), 4);
    assert_eq!(distance("na\u{ef}ve", "naive"), 1);
}

#[test]
fn distance_obeys_triangle_inequality() {
    let words = ["", "he", "hi", "hello", "help", "world", "word", "kitten", "sitting"];
    for a in words {
        for b in words {
            for c in words {
                assert!(distance(a, c) <= distance(a, b) + distance(b, c));
            }
        }
    }
}

#[test]
fn distance_lies_between_length_difference_and_longer_length() {
    let words = ["", "a", "he", "hello", "world", "sitting"];
    for a in words {
        for b in words {
            let (m, n) = (a.chars().count(), b.chars().count());
            let d = distance(a, b);
            assert!(d >= m.abs_diff(n));
            assert!(d <= m.max(n));
        }
    }
}

#[test]
fn distance_of_single_edits_is_one() {
    assert_eq!(distance("word", "ward"), 1);
    assert_eq!(distance("word", "words"), 1);
    assert_eq!(distance("word", "wor"), 1);
    assert_eq!(distance("word", "sword"), 1);
    assert_eq!(distance("word", "ord"), 1);
}

#[test]
fn distance_does_not_depend_on_which_text_is_longer() {
    let long = "a".repeat(300);
    let short = "a".repeat(200);
    assert_eq!(distance(&long, &short), 100);
    assert_eq!(distance(&short, &long), 100);
    let other = "b".repeat(250);
    assert_eq!(distance(&long, &other), 300);
    assert_eq!(distance(&other, &short), 250);
}
