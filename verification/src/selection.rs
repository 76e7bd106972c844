//! Which of a row of scores wins: the best one, and among equals the first.

use crate::similarity::Ratio;
use vstd::prelude::*;

verus! {

/// Every score in the row has a positive denominator.
pub open spec fn all_positive_denominators(scores: Seq<Ratio>) -> bool {
    forall|j: int| 0 <= j < scores.len() ==> 0 < (#[trigger] scores[j]).denom
}

/// `k` is the place of the greatest score in the row, and of the first such
/// where several are equal: every score before it is less, none after it is
/// greater.
pub open spec fn is_first_greatest(scores: Seq<Ratio>, k: int) -> bool {
    &&& 0 <= k < scores.len()
    &&& forall|j: int| 0 <= j < k ==> (#[trigger] scores[j]).lt(scores[k])
    &&& forall|j: int| k < j < scores.len() ==> (#[trigger] scores[j]).le(scores[k])
}

/// The place of the first greatest score of a row that is not empty.
pub open spec fn first_greatest(scores: Seq<Ratio>) -> int {
    choose|k: int| is_first_greatest(scores, k)
}

/// A row has at most one first greatest score.
pub proof fn first_greatest_is_unique(scores: Seq<Ratio>, k1: int, k2: int)
    requires
        is_first_greatest(scores, k1),
        is_first_greatest(scores, k2),
    ensures
        k1 == k2,
{
    if k1 < k2 {
        assert(scores[k1].lt(scores[k2]));
        assert(scores[k2].le(scores[k1]));
    } else if k2 < k1 {
        assert(scores[k2].lt(scores[k1]));
        assert(scores[k1].le(scores[k2]));
    }
}

/// Where `k` is the first greatest of a row, it stays so when a score that
/// is not greater is added at the end, and gives way to a greater one.
pub proof fn first_greatest_of_longer_row(scores: Seq<Ratio>, k: int, next: Ratio)
    requires
        all_positive_denominators(scores),
        0 < next.denom,
        is_first_greatest(scores, k),
    ensures
        scores[k].lt(next) ==> is_first_greatest(scores.push(next), scores.len() as int),
        !scores[k].lt(next) ==> is_first_greatest(scores.push(next), k),
{
    let longer = scores.push(next);
    let last = scores.len() as int;
    if scores[k].lt(next) {
        assert forall|j: int| 0 <= j < last implies (#[trigger] longer[j]).lt(longer[last]) by {
            assert(longer[j] == scores[j]);
            if j != k {
                assert(scores[j].le(scores[k]));
                scores[j].le_then_lt(scores[k], next);
            }
        }
    } else {
        assert forall|j: int| 0 <= j < k implies (#[trigger] longer[j]).lt(longer[k]) by {
            assert(longer[j] == scores[j]);
        }
        assert forall|j: int| k < j < longer.len() implies (#[trigger] longer[j]).le(longer[k]) by {
            if j < last {
                assert(longer[j] == scores[j]);
            }
        }
    }
}

/// Every row that is not empty has a first greatest score.
pub proof fn first_greatest_exists(scores: Seq<Ratio>)
    requires
        scores.len() > 0,
        all_positive_denominators(scores),
    ensures
        is_first_greatest(scores, first_greatest(scores)),
    decreases scores.len(),
{
    if scores.len() == 1 {
        assert(is_first_greatest(scores, 0));
    } else {
        let shorter = scores.drop_last();
        first_greatest_exists(shorter);
        let k = first_greatest(shorter);
        first_greatest_of_longer_row(shorter, k, scores.last());
        assert(shorter.push(scores.last()) == scores);
        if shorter[k].lt(scores.last()) {
            assert(is_first_greatest(scores, scores.len() - 1));
        } else {
            assert(is_first_greatest(scores, k));
        }
    }
}

/// No score of the row is greater than the first greatest, and none that
/// stands for the same number comes before it.
pub proof fn first_greatest_wins(scores: Seq<Ratio>, j: int)
    requires
        scores.len() > 0,
        all_positive_denominators(scores),
        0 <= j < scores.len(),
    ensures
        scores[j].le(scores[first_greatest(scores)]),
        scores[j].same_number(scores[first_greatest(scores)]) ==> first_greatest(scores) <= j,
{
    first_greatest_exists(scores);
    let k = first_greatest(scores);
    if j < k {
        assert(scores[j].lt(scores[k]));
    } else if k < j {
        assert(scores[j].le(scores[k]));
    }
}

/// `k` is the place of the least distance in the row, and of the first such
/// where several are equal: every distance before it is greater, none after
/// it is less.
pub open spec fn is_first_least(distances: Seq<nat>, k: int) -> bool {
    &&& 0 <= k < distances.len()
    &&& forall|j: int| 0 <= j < k ==> distances[k] < #[trigger] distances[j]
    &&& forall|j: int| k < j < distances.len() ==> distances[k] <= #[trigger] distances[j]
}

/// The place of the first least distance of a row that is not empty.
pub open spec fn first_least(distances: Seq<nat>) -> int {
    choose|k: int| is_first_least(distances, k)
}

/// A row has at most one first least distance.
pub proof fn first_least_is_unique(distances: Seq<nat>, k1: int, k2: int)
    requires
        is_first_least(distances, k1),
        is_first_least(distances, k2),
    ensures
        k1 == k2,
{
    if k1 < k2 {
        assert(distances[k2] < distances[k1]);
    } else if k2 < k1 {
        assert(distances[k1] < distances[k2]);
    }
}

/// Where `k` is the first least of a row, it stays so when a distance that
/// is not less is added at the end, and gives way to a lesser one.
pub proof fn first_least_of_longer_row(distances: Seq<nat>, k: int, next: nat)
    requires
        is_first_least(distances, k),
    ensures
        next < distances[k] ==> is_first_least(distances.push(next), distances.len() as int),
        next >= distances[k] ==> is_first_least(distances.push(next), k),
{
    let longer = distances.push(next);
    let last = distances.len() as int;
    if next < distances[k] {
        assert forall|j: int| 0 <= j < last implies longer[last] < #[trigger] longer[j] by {
            assert(longer[j] == distances[j]);
            if j < k {
                assert(distances[k] < distances[j]);
            } else if k < j {
                assert(distances[k] <= distances[j]);
            }
        }
    } else {
        assert forall|j: int| 0 <= j < k implies longer[k] < #[trigger] longer[j] by {
            assert(longer[j] == distances[j]);
        }
        assert forall|j: int| k < j < longer.len() implies longer[k] <= #[trigger] longer[j] by {
            if j < last {
                assert(longer[j] == distances[j]);
            }
        }
    }
}

/// Every row that is not empty has a first least distance.
pub proof fn first_least_exists(distances: Seq<nat>)
    requires
        distances.len() > 0,
    ensures
        is_first_least(distances, first_least(distances)),
    decreases distances.len(),
{
    if distances.len() == 1 {
        assert(is_first_least(distances, 0));
    } else {
        let shorter = distances.drop_last();
        first_least_exists(shorter);
        let k = first_least(shorter);
        first_least_of_longer_row(shorter, k, distances.last());
        assert(shorter.push(distances.last()) == distances);
        if distances.last() < shorter[k] {
            assert(is_first_least(distances, distances.len() - 1));
        } else {
            assert(is_first_least(distances, k));
        }
    }
}

/// No distance of the row is less than the first least, and none equal to
/// it comes before it.
pub proof fn first_least_wins(distances: Seq<nat>, j: int)
    requires
        0 <= j < distances.len(),
    ensures
        distances[first_least(distances)] <= distances[j],
        distances[j] == distances[first_least(distances)] ==> first_least(distances) <= j,
{
    first_least_exists(distances);
    let k = first_least(distances);
    if j < k {
        assert(distances[k] < distances[j]);
    } else if k < j {
        assert(distances[k] <= distances[j]);
    }
}

} // verus!
