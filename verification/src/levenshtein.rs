//! Levenshtein distance between two texts, compared character by character.
//!
//! [`edit_distance`] is the mathematical definition; [`levenshtein_distance`]
//! computes it with two rolling rows and is proved to agree with it.

use crate::similarity::{Ratio, Similarity};
use vstd::prelude::*;

verus! {

/// What it costs to turn `x` into `y` in place: nothing if they already agree.
pub open spec fn substitution_cost(x: char, y: char) -> nat {
    if x == y {
        0
    } else {
        1
    }
}

/// The smallest of three numbers.
pub open spec fn least_of(x: nat, y: nat, z: nat) -> nat {
    if x <= y && x <= z {
        x
    } else if y <= z {
        y
    } else {
        z
    }
}

/// The least number of single-character insertions, deletions and
/// substitutions that turn `a` into `b`.
///
/// Turning anything into the empty text deletes every character, and the
/// empty text grows into `b` by inserting every character of `b`. Otherwise
/// the last edit either deletes the last character of `a`, inserts the last
/// character of `b`, or lines the two last characters up with each other.
pub open spec fn edit_distance(a: Seq<char>, b: Seq<char>) -> nat
    decreases a.len() + b.len(),
{
    if a.len() == 0 {
        b.len()
    } else if b.len() == 0 {
        a.len()
    } else {
        least_of(
            edit_distance(a.drop_last(), b) + 1,
            edit_distance(a, b.drop_last()) + 1,
            edit_distance(a.drop_last(), b.drop_last()) + substitution_cost(a.last(), b.last()),
        )
    }
}

/// The distance is never less than the difference of the two lengths, and
/// never more than the greater of them.
pub proof fn distance_is_bounded_by_lengths(a: Seq<char>, b: Seq<char>)
    ensures
        a.len() - b.len() <= edit_distance(a, b),
        b.len() - a.len() <= edit_distance(a, b),
        edit_distance(a, b) <= a.len() || edit_distance(a, b) <= b.len(),
    decreases a.len() + b.len(),
{
    if a.len() > 0 && b.len() > 0 {
        distance_is_bounded_by_lengths(a.drop_last(), b);
        distance_is_bounded_by_lengths(a, b.drop_last());
        distance_is_bounded_by_lengths(a.drop_last(), b.drop_last());
    }
}

/// A text is at distance zero from itself.
pub proof fn distance_to_self_is_zero(x: Seq<char>)
    ensures
        edit_distance(x, x) == 0,
    decreases x.len(),
{
    if x.len() > 0 {
        distance_to_self_is_zero(x.drop_last());
    }
}

/// Only equal texts are at distance zero.
pub proof fn distance_zero_means_equal(a: Seq<char>, b: Seq<char>)
    ensures
        edit_distance(a, b) == 0 <==> a == b,
    decreases a.len() + b.len(),
{
    if a == b {
        distance_to_self_is_zero(a);
    } else if a.len() == 0 || b.len() == 0 {
        assert(a.len() != b.len()) by {
            if a.len() == b.len() {
                assert(a =~= b);
            }
        }
    } else {
        distance_zero_means_equal(a.drop_last(), b.drop_last());
        if edit_distance(a, b) == 0 {
            assert(a.drop_last() == b.drop_last());
            assert(a.last() == b.last());
            assert(a =~= a.drop_last().push(a.last()));
            assert(b =~= b.drop_last().push(b.last()));
        }
    }
}

/// The distance from `a` to `b` is the distance from `b` to `a`.
pub proof fn distance_is_symmetric(a: Seq<char>, b: Seq<char>)
    ensures
        edit_distance(a, b) == edit_distance(b, a),
    decreases a.len() + b.len(),
{
    if a.len() > 0 && b.len() > 0 {
        distance_is_symmetric(a.drop_last(), b);
        distance_is_symmetric(a, b.drop_last());
        distance_is_symmetric(a.drop_last(), b.drop_last());
    }
}

/// The distance between a text and the empty text is the text's length.
pub proof fn distance_to_empty_is_length(x: Seq<char>)
    ensures
        edit_distance(x, Seq::<char>::empty()) == x.len(),
        edit_distance(Seq::<char>::empty(), x) == x.len(),
{
}

/// Going from `a` to `c` directly never takes more edits than going by way
/// of `b`.
pub proof fn distance_triangle_inequality(a: Seq<char>, b: Seq<char>, c: Seq<char>)
    ensures
        edit_distance(a, c) <= edit_distance(a, b) + edit_distance(b, c),
    decreases a.len() + b.len() + c.len(),
{
    if a.len() == 0 || b.len() == 0 || c.len() == 0 {
        distance_is_bounded_by_lengths(a, b);
        distance_is_bounded_by_lengths(b, c);
        distance_is_bounded_by_lengths(a, c);
    } else {
        let shorter_a = a.drop_last();
        let shorter_b = b.drop_last();
        let shorter_c = c.drop_last();
        distance_triangle_inequality(shorter_a, b, c);
        distance_triangle_inequality(a, b, shorter_c);
        distance_triangle_inequality(a, shorter_b, c);
        distance_triangle_inequality(a, shorter_b, shorter_c);
        distance_triangle_inequality(shorter_a, shorter_b, c);
        distance_triangle_inequality(shorter_a, shorter_b, shorter_c);
        distance_grows_by_at_most_one(a, c);
    }
}

/// Dropping the last character of either text, or of both, lowers the
/// distance by at most one.
proof fn distance_grows_by_at_most_one(a: Seq<char>, b: Seq<char>)
    requires
        a.len() > 0,
        b.len() > 0,
    ensures
        edit_distance(a, b) <= edit_distance(a.drop_last(), b) + 1,
        edit_distance(a, b) <= edit_distance(a, b.drop_last()) + 1,
        edit_distance(a, b) <= edit_distance(a.drop_last(), b.drop_last()) + 1,
{
}

/// The length of the longer of two texts.
pub open spec fn longer_length(a: Seq<char>, b: Seq<char>) -> nat {
    if a.len() >= b.len() {
        a.len()
    } else {
        b.len()
    }
}

/// How alike two texts are, from zero to one: one minus the share of the
/// longer text that has to be edited, `1 - distance / longer length`. Two
/// empty texts are identical, so their similarity is one.
pub open spec fn similarity(a: Seq<char>, b: Seq<char>) -> Ratio {
    let longest = longer_length(a, b);
    if longest == 0 {
        Ratio::one()
    } else {
        Ratio { numer: longest - edit_distance(a, b), denom: longest as int }
    }
}

/// Every similarity is a number from zero to one.
pub proof fn similarity_is_in_unit_interval(a: Seq<char>, b: Seq<char>)
    ensures
        similarity(a, b).in_unit_interval(),
{
    distance_is_bounded_by_lengths(a, b);
}

/// A text has similarity one to itself, the empty text included.
pub proof fn similarity_to_self_is_one(x: Seq<char>)
    ensures
        similarity(x, x).is_one(),
{
    distance_to_self_is_zero(x);
}

/// Only equal texts have similarity one.
pub proof fn similarity_one_means_equal(a: Seq<char>, b: Seq<char>)
    ensures
        similarity(a, b).is_one() <==> a == b,
{
    distance_zero_means_equal(a, b);
    if a.len() == 0 && b.len() == 0 {
        assert(a =~= b);
    }
}

/// The similarity of `a` to `b` is that of `b` to `a`.
pub proof fn similarity_is_symmetric(a: Seq<char>, b: Seq<char>)
    ensures
        similarity(a, b) == similarity(b, a),
{
    distance_is_symmetric(a, b);
}

/// Unless both texts are empty, similarity and distance determine each
/// other: the similarity is `1 - distance / longer length`, that is
/// `(longer length - distance) / longer length`.
pub proof fn similarity_complements_distance(a: Seq<char>, b: Seq<char>)
    requires
        a.len() > 0 || b.len() > 0,
    ensures
        similarity(a, b).same_number(
            Ratio {
                numer: longer_length(a, b) - edit_distance(a, b),
                denom: longer_length(a, b) as int,
            },
        ),
        similarity(a, b).numer + edit_distance(a, b) == similarity(a, b).denom,
        similarity(a, b).denom == longer_length(a, b),
{
}

/// What one cell of the table holds, given the three cells it is filled
/// from: the distance between the first `i + 1` characters of `a` and the
/// first `j + 1` characters of `b`.
proof fn distance_of_longer_prefixes(a: Seq<char>, b: Seq<char>, i: int, j: int)
    requires
        0 <= i < a.len(),
        0 <= j < b.len(),
    ensures
        edit_distance(a.take(i + 1), b.take(j + 1)) == least_of(
            edit_distance(a.take(i), b.take(j + 1)) + 1,
            edit_distance(a.take(i + 1), b.take(j)) + 1,
            edit_distance(a.take(i), b.take(j)) + substitution_cost(a[i], b[j]),
        ),
{
    assert(a.take(i + 1).drop_last() == a.take(i));
    assert(b.take(j + 1).drop_last() == b.take(j));
}

/// The first row of the table: the distances from the empty text to each
/// prefix of a text of `width` characters.
fn first_row(width: usize) -> (row: Vec<usize>)
    ensures
        row@.len() == width + 1,
        forall|j: int| 0 <= j <= width ==> row@[j] == j,
{
    let mut row: Vec<usize> = Vec::new();
    let mut j: usize = 0;
    while j < width
        invariant
            j <= width,
            row@.len() == j,
            forall|k: int| 0 <= k < j ==> row@[k] == k,
        decreases width - j,
    {
        row.push(j);
        j += 1;
    }
    row.push(width);
    row
}

/// The next row of the table: `previous` holds the distances from the first
/// `i` characters of `a` to each prefix of `b`, the result those from the
/// first `i + 1` characters.
fn next_row(a: &Vec<char>, b: &Vec<char>, i: usize, previous: &Vec<usize>) -> (current: Vec<usize>)
    requires
        i < a.len(),
        previous.len() == b.len() + 1,
        forall|j: int|
            0 <= j <= b@.len() ==> previous@[j] == edit_distance(a@.take(i as int), b@.take(j)),
    ensures
        current@.len() == b@.len() + 1,
        forall|j: int|
            0 <= j <= b@.len() ==> current@[j] == edit_distance(a@.take(i + 1), b@.take(j)),
{
    let width = b.len();
    let mut current: Vec<usize> = Vec::new();
    current.push(i + 1);
    let mut j: usize = 0;
    while j < width
        invariant
            i < a.len(),
            width == b@.len(),
            j <= width,
            previous.len() == width + 1,
            forall|k: int|
                0 <= k <= width ==> previous@[k] == edit_distance(a@.take(i as int), b@.take(k)),
            current@.len() == j + 1,
            forall|k: int|
                0 <= k <= j ==> current@[k] == edit_distance(a@.take(i + 1), b@.take(k)),
        decreases width - j,
    {
        proof {
            distance_of_longer_prefixes(a@, b@, i as int, j as int);
            distance_is_bounded_by_lengths(a@.take(i as int), b@.take(j + 1));
            distance_is_bounded_by_lengths(a@.take(i as int), b@.take(j as int));
        }
        let deletion = previous[j + 1];
        let insertion = current[j];
        let edit = if deletion < insertion {
            deletion + 1
        } else {
            insertion + 1
        };
        let aligned = if a[i] == b[j] {
            previous[j]
        } else {
            previous[j] + 1
        };
        current.push(if edit < aligned { edit } else { aligned });
        j += 1;
    }
    current
}

/// The distance between two texts given as characters, filled in row by
/// row; each row is as long as `b`, and only two rows exist at a time.
fn distance_by_rows(a: &Vec<char>, b: &Vec<char>) -> (distance: usize)
    ensures
        distance == edit_distance(a@, b@),
{
    let mut previous = first_row(b.len());
    let mut i: usize = 0;
    while i < a.len()
        invariant
            i <= a@.len(),
            previous.len() == b.len() + 1,
            forall|j: int|
                0 <= j <= b@.len() ==> previous@[j] == edit_distance(a@.take(i as int), b@.take(j)),
        decreases a@.len() - i,
    {
        previous = next_row(a, b, i, &previous);
        i += 1;
    }
    assert(a@.take(a@.len() as int) == a@);
    assert(b@.take(b@.len() as int) == b@);
    previous[b.len()]
}

/// The distance between two texts given as characters. The shorter text
/// gives the rows their length.
pub(crate) fn distance_of_chars(a: &Vec<char>, b: &Vec<char>) -> (distance: usize)
    ensures
        distance == edit_distance(a@, b@),
{
    if a.len() < b.len() {
        proof {
            distance_is_symmetric(a@, b@);
        }
        distance_by_rows(b, a)
    } else {
        distance_by_rows(a, b)
    }
}

/// The Levenshtein distance between `string1` and `string2`: the least
/// number of characters to insert, delete or replace in one to obtain the
/// other. Texts are compared character by character, not byte by byte.
pub fn levenshtein_distance(string1: String, string2: String) -> (distance: usize)
    ensures
        distance == edit_distance(string1@, string2@),
{
    let a = chars_of(string1.as_str());
    let b = chars_of(string2.as_str());
    distance_of_chars(&a, &b)
}

/// The similarity of two texts given as characters.
pub(crate) fn similarity_of_chars(a: &Vec<char>, b: &Vec<char>) -> (score: Similarity)
    ensures
        score@ == similarity(a@, b@),
{
    let longest = if a.len() >= b.len() {
        a.len()
    } else {
        b.len()
    };
    if longest == 0 {
        Similarity::one()
    } else {
        let distance = distance_of_chars(a, b);
        proof {
            distance_is_bounded_by_lengths(a@, b@);
        }
        Similarity::new(longest - distance, longest).unwrap()
    }
}

/// How alike `string1` and `string2` are, from zero (every character of
/// the longer one has to be edited) to one (identical):
/// `1 - distance / longer length`, counted in characters and held as an
/// exact fraction. Two empty texts have similarity one.
pub fn levenshtein_similarity(string1: String, string2: String) -> (score: Similarity)
    ensures
        score@ == similarity(string1@, string2@),
{
    let a = chars_of(string1.as_str());
    let b = chars_of(string2.as_str());
    similarity_of_chars(&a, &b)
}

/// Collects the characters of `text`, in order.
pub(crate) fn chars_of(text: &str) -> (chars: Vec<char>)
    ensures
        chars@ == text@,
{
    let mut chars: Vec<char> = Vec::new();
    for c in it: text.chars()
        invariant
            chars@ == it.seq().take(it.index() as int),
            it.seq() == text@,
    {
        chars.push(c);
    }
    chars
}

} // verus!
