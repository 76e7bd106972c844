//! What the distance counts: the edits, one character at a time, that lead
//! from one text to another.
//!
//! An edit path is a row of texts in which each text arises from the one
//! before it by a single edit. The two laws at the end say that the
//! distance of [`edit_distance`] is the number of edits on a shortest such
//! path: no path takes fewer, and one takes exactly as many.

use crate::levenshtein::{
    distance_to_self_is_zero, distance_triangle_inequality, edit_distance, substitution_cost,
};
use vstd::prelude::*;

verus! {

/// `t` is `s` with one character put in somewhere.
pub open spec fn is_insertion(s: Seq<char>, t: Seq<char>) -> bool {
    exists|i: int, c: char| 0 <= i <= s.len() && t == #[trigger] s.insert(i, c)
}

/// `t` is `s` with one character taken out.
pub open spec fn is_deletion(s: Seq<char>, t: Seq<char>) -> bool {
    exists|i: int| 0 <= i < s.len() && t == #[trigger] s.remove(i)
}

/// `t` is `s` with one character replaced by another.
pub open spec fn is_substitution(s: Seq<char>, t: Seq<char>) -> bool {
    exists|i: int, c: char| 0 <= i < s.len() && c != s[i] && t == #[trigger] s.update(i, c)
}

/// `t` arises from `s` by a single edit.
pub open spec fn is_single_edit(s: Seq<char>, t: Seq<char>) -> bool {
    is_insertion(s, t) || is_deletion(s, t) || is_substitution(s, t)
}

/// `path` leads from `a` to `b` by single edits: it starts with `a`, ends
/// with `b`, and each text in it arises from the one before by one edit.
/// Such a path makes `path.len() - 1` edits.
pub open spec fn is_edit_path(path: Seq<Seq<char>>, a: Seq<char>, b: Seq<char>) -> bool {
    &&& path.len() > 0
    &&& path.first() == a
    &&& path.last() == b
    &&& forall|k: int| 0 <= k < path.len() - 1 ==> is_single_edit(#[trigger] path[k], path[k + 1])
}

/// An ending that two texts share adds nothing to their distance.
proof fn shared_ending_adds_no_distance(x: Seq<char>, y: Seq<char>, ending: Seq<char>)
    ensures
        edit_distance(x + ending, y + ending) <= edit_distance(x, y),
    decreases ending.len(),
{
    if ending.len() == 0 {
        assert(x + ending == x);
        assert(y + ending == y);
    } else {
        let shorter = ending.drop_last();
        shared_ending_adds_no_distance(x, y, shorter);
        assert((x + ending).drop_last() == x + shorter);
        assert((y + ending).drop_last() == y + shorter);
        assert((x + ending).last() == (y + ending).last());
    }
}

/// A text and the same text with one more character at the end are at
/// distance one.
proof fn one_more_character_is_one_edit(s: Seq<char>, c: char)
    ensures
        edit_distance(s, s.push(c)) <= 1,
        edit_distance(s.push(c), s) <= 1,
{
    distance_to_self_is_zero(s);
    assert(s.push(c).drop_last() == s);
}

/// Two texts that differ in their last character only are at most at
/// distance one.
proof fn other_last_character_is_one_edit(s: Seq<char>, c: char, d: char)
    ensures
        edit_distance(s.push(c), s.push(d)) <= 1,
{
    distance_to_self_is_zero(s);
    assert(s.push(c).drop_last() == s);
    assert(s.push(d).drop_last() == s);
    assert(substitution_cost(c, d) <= 1);
}

/// A single edit moves a text by a distance of at most one.
pub proof fn single_edit_is_within_distance_one(s: Seq<char>, t: Seq<char>)
    requires
        is_single_edit(s, t),
    ensures
        edit_distance(s, t) <= 1,
{
    if is_insertion(s, t) {
        let (i, c) = choose|i: int, c: char| 0 <= i <= s.len() && t == #[trigger] s.insert(i, c);
        let (start, ending) = (s.take(i), s.skip(i));
        assert(s == start + ending);
        assert(t == start.push(c) + ending);
        shared_ending_adds_no_distance(start, start.push(c), ending);
        one_more_character_is_one_edit(start, c);
    } else if is_deletion(s, t) {
        let i = choose|i: int| 0 <= i < s.len() && t == #[trigger] s.remove(i);
        let (start, ending) = (s.take(i), s.skip(i + 1));
        assert(s == start.push(s[i]) + ending);
        assert(t == start + ending);
        shared_ending_adds_no_distance(start.push(s[i]), start, ending);
        one_more_character_is_one_edit(start, s[i]);
    } else {
        let (i, c) = choose|i: int, c: char|
            0 <= i < s.len() && c != s[i] && t == #[trigger] s.update(i, c);
        let (start, ending) = (s.take(i), s.skip(i + 1));
        assert(s == start.push(s[i]) + ending);
        assert(t == start.push(c) + ending);
        shared_ending_adds_no_distance(start.push(s[i]), start.push(c), ending);
        other_last_character_is_one_edit(start, s[i], c);
    }
}

/// An edit stays an edit when the same character is added at the end of
/// both texts.
proof fn single_edit_before_a_last_character(s: Seq<char>, t: Seq<char>, last: char)
    requires
        is_single_edit(s, t),
    ensures
        is_single_edit(s.push(last), t.push(last)),
{
    if is_insertion(s, t) {
        let (i, c) = choose|i: int, c: char| 0 <= i <= s.len() && t == #[trigger] s.insert(i, c);
        assert(t.push(last) == s.push(last).insert(i, c));
        assert(is_insertion(s.push(last), t.push(last)));
    } else if is_deletion(s, t) {
        let i = choose|i: int| 0 <= i < s.len() && t == #[trigger] s.remove(i);
        assert(t.push(last) == s.push(last).remove(i));
        assert(is_deletion(s.push(last), t.push(last)));
    } else {
        let (i, c) = choose|i: int, c: char|
            0 <= i < s.len() && c != s[i] && t == #[trigger] s.update(i, c);
        assert(t.push(last) == s.push(last).update(i, c));
        assert(is_substitution(s.push(last), t.push(last)));
    }
}

/// No path of edits from `a` to `b` makes fewer edits than the distance
/// between them.
pub proof fn no_edit_path_is_shorter_than_distance(
    path: Seq<Seq<char>>,
    a: Seq<char>,
    b: Seq<char>,
)
    requires
        is_edit_path(path, a, b),
    ensures
        edit_distance(a, b) <= path.len() - 1,
    decreases path.len(),
{
    if path.len() == 1 {
        distance_to_self_is_zero(a);
    } else {
        let rest = path.drop_first();
        assert forall|k: int| 0 <= k < rest.len() - 1 implies is_single_edit(
            #[trigger] rest[k],
            rest[k + 1],
        ) by {
            assert(is_single_edit(path[k + 1], path[k + 2]));
        }
        assert(is_single_edit(path[0], path[1]));
        no_edit_path_is_shorter_than_distance(rest, path[1], b);
        single_edit_is_within_distance_one(a, path[1]);
        distance_triangle_inequality(a, path[1], b);
    }
}

/// Some path of edits from `a` to `b` makes exactly as many edits as the
/// distance between them; the result is one.
pub proof fn shortest_edit_path(a: Seq<char>, b: Seq<char>) -> (path: Seq<Seq<char>>)
    ensures
        is_edit_path(path, a, b),
        path.len() - 1 == edit_distance(a, b),
    decreases a.len() + b.len(),
{
    if a.len() == 0 {
        let path = Seq::new(b.len() + 1, |k: int| b.take(k));
        assert(path.first() == a);
        assert(path.last() == b);
        assert forall|k: int| 0 <= k < path.len() - 1 implies is_single_edit(
            #[trigger] path[k],
            path[k + 1],
        ) by {
            assert(b.take(k + 1) == b.take(k).insert(k, b[k]));
            assert(is_insertion(path[k], path[k + 1]));
        }
        path
    } else if b.len() == 0 {
        let path = Seq::new(a.len() + 1, |k: int| a.take(a.len() - k));
        assert(path.first() == a);
        assert(path.last() == b);
        assert forall|k: int| 0 <= k < path.len() - 1 implies is_single_edit(
            #[trigger] path[k],
            path[k + 1],
        ) by {
            assert(a.take(a.len() - k - 1) == a.take(a.len() - k).remove(a.len() - k - 1));
            assert(is_deletion(path[k], path[k + 1]));
        }
        path
    } else if edit_distance(a, b) == edit_distance(a.drop_last(), b) + 1 {
        let rest = shortest_edit_path(a.drop_last(), b);
        let path = seq![a] + rest;
        assert forall|k: int| 0 <= k < path.len() - 1 implies is_single_edit(
            #[trigger] path[k],
            path[k + 1],
        ) by {
            if k == 0 {
                assert(a.drop_last() == a.remove(a.len() - 1));
                assert(is_deletion(path[0], path[1]));
            } else {
                assert(is_single_edit(rest[k - 1], rest[k]));
            }
        }
        path
    } else if edit_distance(a, b) == edit_distance(a, b.drop_last()) + 1 {
        let rest = shortest_edit_path(a, b.drop_last());
        let path = rest.push(b);
        assert forall|k: int| 0 <= k < path.len() - 1 implies is_single_edit(
            #[trigger] path[k],
            path[k + 1],
        ) by {
            if k == rest.len() - 1 {
                assert(b == b.drop_last().insert(b.len() - 1, b.last()));
                assert(is_insertion(path[k], path[k + 1]));
            } else {
                assert(is_single_edit(rest[k], rest[k + 1]));
            }
        }
        path
    } else {
        let inner = shortest_edit_path(a.drop_last(), b.drop_last());
        let kept = Seq::new(inner.len(), |k: int| inner[k].push(a.last()));
        assert(kept.first() == a);
        assert forall|k: int| 0 <= k < kept.len() - 1 implies is_single_edit(
            #[trigger] kept[k],
            kept[k + 1],
        ) by {
            assert(is_single_edit(inner[k], inner[k + 1]));
            single_edit_before_a_last_character(inner[k], inner[k + 1], a.last());
        }
        if a.last() == b.last() {
            assert(kept.last() == b);
            kept
        } else {
            let path = kept.push(b);
            assert forall|k: int| 0 <= k < path.len() - 1 implies is_single_edit(
                #[trigger] path[k],
                path[k + 1],
            ) by {
                if k == kept.len() - 1 {
                    assert(b == kept.last().update(b.len() - 1, b.last()));
                    assert(is_substitution(path[k], path[k + 1]));
                } else {
                    assert(is_single_edit(kept[k], kept[k + 1]));
                }
            }
            path
        }
    }
}

} // verus!
