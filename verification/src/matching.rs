//! The nearest color of a palette under the improved CIEDE2000 difference.

use vstd::prelude::*;
use crate::color::{
    is_nan, is_not_a_number, measure_difference, measures, palette_is_single_valued, rank, rank_of,
    Lab,
};

verus! {

/// `k` is the first position of `distances` that holds the smallest number.
pub open spec fn is_first_minimum(distances: Seq<u32>, k: int) -> bool {
    &&& 0 <= k < distances.len()
    &&& forall|j: int| 0 <= j < distances.len() ==> rank(distances[k]) <= rank(#[trigger] distances[j])
    &&& forall|j: int| 0 <= j < k ==> rank(distances[k]) < rank(#[trigger] distances[j])
}

/// The first position of `distances` that holds the smallest number.
pub open spec fn first_minimum(distances: Seq<u32>) -> int {
    choose|k: int| is_first_minimum(distances, k)
}

/// Whether the numbers can be ordered against each other: a single number
/// needs no ordering, of several none may be a NaN.
pub open spec fn all_ordered(distances: Seq<u32>) -> bool {
    distances.len() >= 2 ==> forall|i: int| 0 <= i < distances.len() ==> !is_nan(#[trigger] distances[i])
}

/// `distances` holds, in palette order, a measured difference of every
/// palette color from `original`.
pub open spec fn measured(original: Lab, colors: Seq<Lab>, distances: Seq<u32>) -> bool {
    &&& distances.len() == colors.len()
    &&& forall|i: int| 0 <= i < colors.len() ==> measures(original, colors[i], #[trigger] distances[i])
}

/// The palette color with the smallest of the measured differences, the
/// earlier one where two are equally near; `None` where the differences
/// cannot be ordered.
pub open spec fn nearest(colors: Seq<Lab>, distances: Seq<u32>) -> Option<Lab> {
    if all_ordered(distances) {
        Some(colors[first_minimum(distances)])
    } else {
        None
    }
}

/// `found` is what the search for the palette color nearest to `original`
/// may give: the nearest color by some measured differences.
pub open spec fn is_closest(original: Lab, colors: Seq<Lab>, found: Option<Lab>) -> bool {
    exists|distances: Seq<u32>| #[trigger]
        measured(original, colors, distances) && found == nearest(colors, distances)
}

/// A sequence has at most one first minimum, so whichever position is one
/// is the position that `first_minimum` names.
pub proof fn lemma_first_minimum_is_unique(distances: Seq<u32>, k: int)
    requires
        is_first_minimum(distances, k),
    ensures
        first_minimum(distances) == k,
{
    let chosen = first_minimum(distances);
    assert(is_first_minimum(distances, chosen));
    if chosen < k {
        assert(rank(distances[k]) < rank(distances[chosen]));
        assert(rank(distances[chosen]) <= rank(distances[k]));
    } else if k < chosen {
        assert(rank(distances[chosen]) < rank(distances[k]));
        assert(rank(distances[k]) <= rank(distances[chosen]));
    }
}

/// Every sequence that is not empty has a first minimum, and it is the
/// position that `first_minimum` names.
pub proof fn lemma_first_minimum_exists(distances: Seq<u32>)
    requires
        distances.len() > 0,
    ensures
        is_first_minimum(distances, first_minimum(distances)),
{
    let k = lemma_some_first_minimum(distances);
    lemma_first_minimum_is_unique(distances, k);
}

proof fn lemma_some_first_minimum(distances: Seq<u32>) -> (k: int)
    requires
        distances.len() > 0,
    ensures
        is_first_minimum(distances, k),
    decreases distances.len(),
{
    if distances.len() == 1 {
        0
    } else {
        let shorter = distances.drop_last();
        let earlier = lemma_some_first_minimum(shorter);
        assert forall|j: int| 0 <= j < shorter.len() implies #[trigger] distances[j] == shorter[j] by {}
        if rank(distances.last()) < rank(distances[earlier]) {
            let k = distances.len() - 1;
            assert forall|j: int| 0 <= j < distances.len() implies rank(distances[k]) <= rank(
                #[trigger] distances[j],
            ) by {
                if j < k {
                    assert(rank(shorter[earlier]) <= rank(shorter[j]));
                }
            }
            assert forall|j: int| 0 <= j < k implies rank(distances[k]) < rank(
                #[trigger] distances[j],
            ) by {
                assert(rank(shorter[earlier]) <= rank(shorter[j]));
            }
            k
        } else {
            assert forall|j: int| 0 <= j < distances.len() implies rank(distances[earlier])
                <= rank(#[trigger] distances[j]) by {
                if j < distances.len() - 1 {
                    assert(rank(shorter[earlier]) <= rank(shorter[j]));
                }
            }
            assert forall|j: int| 0 <= j < earlier implies rank(distances[earlier]) < rank(
                #[trigger] distances[j],
            ) by {
                assert(rank(shorter[earlier]) < rank(shorter[j]));
            }
            earlier
        }
    }
}

/// Measured twice from one color, the differences of a palette are the
/// same, provided that `palette` gives one difference for one pair.
pub proof fn lemma_measured_once(
    original: Lab,
    colors: Seq<Lab>,
    one: Seq<u32>,
    other: Seq<u32>,
)
    requires
        palette_is_single_valued(),
        measured(original, colors, one),
        measured(original, colors, other),
    ensures
        one == other,
{
    assert forall|i: int| 0 <= i < one.len() implies one[i] == other[i] by {
        assert(measures(original, colors[i], one[i]));
        assert(measures(original, colors[i], other[i]));
    }
    assert(one =~= other);
}

/// Finds the first position that holds the smallest of the numbers given by
/// their bit patterns.
pub fn index_of_smallest(distances: &Vec<u32>) -> (k: usize)
    requires
        distances@.len() > 0,
    ensures
        is_first_minimum(distances@, k as int),
        k == first_minimum(distances@),
{
    let mut best: usize = 0;
    let mut best_rank: i64 = rank_of(distances[0]);
    let mut i: usize = 1;
    while i < distances.len()
        invariant
            1 <= i <= distances@.len(),
            best < i,
            best_rank == rank(distances@[best as int]),
            is_first_minimum(distances@.subrange(0, i as int), best as int),
        decreases distances@.len() - i,
    {
        let candidate: i64 = rank_of(distances[i]);
        let ghost before = distances@.subrange(0, i as int);
        let ghost after = distances@.subrange(0, i + 1);
        proof {
            assert forall|j: int| 0 <= j < i implies #[trigger] after[j] == before[j] by {}
            assert(after[i as int] == distances@[i as int]);
        }
        if candidate < best_rank {
            proof {
                assert forall|j: int| 0 <= j < i + 1 implies candidate <= rank(#[trigger] after[j]) by {
                    if j < i {
                        assert(rank(before[best as int]) <= rank(before[j]));
                    }
                }
                assert forall|j: int| 0 <= j < i implies candidate < rank(#[trigger] after[j]) by {
                    assert(rank(before[best as int]) <= rank(before[j]));
                }
            }
            best = i;
            best_rank = candidate;
        } else {
            proof {
                assert forall|j: int| 0 <= j < i + 1 implies best_rank <= rank(#[trigger] after[j]) by {
                    if j < i {
                        assert(rank(before[best as int]) <= rank(before[j]));
                    }
                }
                assert forall|j: int| 0 <= j < best implies best_rank < rank(#[trigger] after[j]) by {
                    assert(rank(before[best as int]) < rank(before[j]));
                }
            }
        }
        i = i + 1;
    }
    proof {
        assert(distances@.subrange(0, i as int) =~= distances@);
        lemma_first_minimum_is_unique(distances@, best as int);
    }
    best
}

/// Tells whether the numbers can be ordered against each other.
pub fn can_be_ordered(distances: &Vec<u32>) -> (r: bool)
    ensures
        r == all_ordered(distances@),
{
    if distances.len() < 2 {
        return true;
    }
    let mut i: usize = 0;
    while i < distances.len()
        invariant
            2 <= distances@.len(),
            i <= distances@.len(),
            forall|j: int| 0 <= j < i ==> !is_nan(#[trigger] distances@[j]),
        decreases distances@.len() - i,
    {
        if is_not_a_number(distances[i]) {
            assert(is_nan(distances@[i as int]));
            return false;
        }
        i = i + 1;
    }
    true
}

/// Measures the difference of every palette color from `original`.
pub fn measure_palette(original: &Lab, colors: &[Lab]) -> (distances: Vec<u32>)
    ensures
        measured(*original, colors@, distances@),
{
    let mut distances: Vec<u32> = Vec::new();
    let mut i: usize = 0;
    while i < colors.len()
        invariant
            i <= colors@.len(),
            distances@.len() == i,
            forall|j: int| 0 <= j < i ==> measures(*original, colors@[j], #[trigger] distances@[j]),
        decreases colors@.len() - i,
    {
        distances.push(measure_difference(*original, colors[i]));
        i = i + 1;
    }
    distances
}

/// Returns the palette color that is nearest to `original` under the
/// improved CIEDE2000 difference. Of several colors that are equally near,
/// the first in palette order is returned. Where the palette has two or more
/// colors and one of the differences is a NaN, nothing is nearest and the
/// result is `None`.
pub fn find_closest_color<'a>(original: &Lab, colors: &'a [Lab]) -> (found: Option<&'a Lab>)
    requires
        colors@.len() > 0,
    ensures
        match found {
            Some(color) => is_closest(*original, colors@, Some(*color)),
            None => is_closest(*original, colors@, None),
        },
        colors@.len() == 1 ==> found is Some,
{
    let distances = measure_palette(original, colors);
    if !can_be_ordered(&distances) {
        return None;
    }
    let k = index_of_smallest(&distances);
    Some(&colors[k])
}

} // verus!
