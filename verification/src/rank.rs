//! Picking the best of a list of scores.

use crate::score::{lemma_greater_raises_rank, Score};
use vstd::prelude::*;

verus! {

/// `i` is the position of the best score of `fits`: no score stands higher in
/// the total order, and every score before it stands strictly lower, so among
/// equal scores the first one is the best.
pub open spec fn is_best(fits: Seq<Score>, i: int) -> bool {
    &&& 0 <= i < fits.len()
    &&& forall|j: int| 0 <= j < fits.len() ==> (#[trigger] fits[j]).rank() <= fits[i].rank()
    &&& forall|j: int| 0 <= j < i ==> (#[trigger] fits[j]).rank() < fits[i].rank()
}

/// The position of the best score of a list that is not empty.
pub open spec fn best_of(fits: Seq<Score>) -> int {
    choose|i: int| is_best(fits, i)
}

/// The best score of a list that is not empty.
pub open spec fn top(fits: Seq<Score>) -> Score {
    fits[best_of(fits)]
}

/// A list has at most one best position.
pub proof fn lemma_best_unique(fits: Seq<Score>, i: int, j: int)
    requires
        is_best(fits, i),
        is_best(fits, j),
    ensures
        i == j,
{
    if i < j {
        assert(fits[i].rank() < fits[j].rank());
        assert(fits[j].rank() <= fits[i].rank());
    } else if j < i {
        assert(fits[j].rank() < fits[i].rank());
        assert(fits[i].rank() <= fits[j].rank());
    }
}

/// A list that is not empty has a best position, and `best_of` names it.
pub proof fn lemma_best_exists(fits: Seq<Score>)
    requires
        fits.len() > 0,
    ensures
        is_best(fits, best_of(fits)),
    decreases fits.len(),
{
    if fits.len() == 1 {
        assert(is_best(fits, 0));
    } else {
        let front = fits.drop_last();
        lemma_best_exists(front);
        let b = best_of(front);
        let n = fits.len() - 1;
        assert forall|j: int| 0 <= j < n implies fits[j] == front[j] by {}
        if fits[n].rank() > fits[b].rank() {
            assert forall|j: int| 0 <= j < fits.len() implies (#[trigger] fits[j]).rank()
                <= fits[n].rank() by {
                if j < n {
                    assert(front[j].rank() <= front[b].rank());
                }
            }
            assert forall|j: int| 0 <= j < n implies (#[trigger] fits[j]).rank()
                < fits[n].rank() by {
                assert(front[j].rank() <= front[b].rank());
            }
            assert(is_best(fits, n));
        } else {
            assert forall|j: int| 0 <= j < fits.len() implies (#[trigger] fits[j]).rank()
                <= fits[b].rank() by {
                if j < n {
                    assert(front[j].rank() <= front[b].rank());
                }
            }
            assert forall|j: int| 0 <= j < b implies (#[trigger] fits[j]).rank()
                < fits[b].rank() by {
                assert(front[j].rank() < front[b].rank());
            }
            assert(is_best(fits, b));
        }
    }
}

/// The best score stands at least as high as every score of the list.
pub proof fn lemma_top_dominates(fits: Seq<Score>, k: int)
    requires
        0 <= k < fits.len(),
    ensures
        top(fits).rank() >= fits[k].rank(),
{
    lemma_best_exists(fits);
}

/// No score of a list is strictly greater as a number than the best one.
pub proof fn lemma_best_is_maximal(fits: Seq<Score>, j: int)
    requires
        fits.len() > 0,
        0 <= j < fits.len(),
    ensures
        !fits[j].greater(top(fits)),
{
    lemma_top_dominates(fits, j);
    if fits[j].greater(top(fits)) {
        lemma_greater_raises_rank(fits[j], top(fits));
    }
}

/// Every score of a list is finite.
pub open spec fn all_finite(fits: Seq<Score>) -> bool {
    forall|i: int| 0 <= i < fits.len() ==> (#[trigger] fits[i]).finite()
}

/// The best of a list of finite scores is finite.
pub proof fn lemma_top_of_finite(fits: Seq<Score>)
    requires
        fits.len() > 0,
        all_finite(fits),
    ensures
        top(fits).finite(),
{
    lemma_best_exists(fits);
}

/// The position of the best score. The list must not be empty.
pub fn best_index(fits: &Vec<Score>) -> (r: usize)
    requires
        fits.len() > 0,
    ensures
        is_best(fits@, r as int),
        r == best_of(fits@),
{
    let mut best: usize = 0;
    let mut best_key: u32 = fits[0].key();
    let mut i: usize = 1;
    while i < fits.len()
        invariant
            1 <= i <= fits.len(),
            best < i,
            best_key == fits[best as int].rank(),
            forall|j: int| 0 <= j < i ==> (#[trigger] fits[j]).rank() <= best_key,
            forall|j: int| 0 <= j < best ==> (#[trigger] fits[j]).rank() < best_key,
        decreases fits.len() - i,
    {
        let k: u32 = fits[i].key();
        if k > best_key {
            best = i;
            best_key = k;
        }
        i += 1;
    }
    proof {
        lemma_best_exists(fits@);
        lemma_best_unique(fits@, best as int, best_of(fits@));
    }
    best
}

/// `i` is the position of the worst score of `fits`: no score stands lower in
/// the total order, and every score before it stands strictly higher, so
/// among equal scores the first one is the worst.
pub open spec fn is_worst(fits: Seq<Score>, i: int) -> bool {
    &&& 0 <= i < fits.len()
    &&& forall|j: int| 0 <= j < fits.len() ==> (#[trigger] fits[j]).rank() >= fits[i].rank()
    &&& forall|j: int| 0 <= j < i ==> (#[trigger] fits[j]).rank() > fits[i].rank()
}

/// The position of the worst score of a list that is not empty.
pub open spec fn worst_of(fits: Seq<Score>) -> int {
    choose|i: int| is_worst(fits, i)
}

/// A list has at most one worst position.
pub proof fn lemma_worst_unique(fits: Seq<Score>, i: int, j: int)
    requires
        is_worst(fits, i),
        is_worst(fits, j),
    ensures
        i == j,
{
    if i < j {
        assert(fits[i].rank() > fits[j].rank());
        assert(fits[j].rank() >= fits[i].rank());
    } else if j < i {
        assert(fits[j].rank() > fits[i].rank());
        assert(fits[i].rank() >= fits[j].rank());
    }
}

/// A list that is not empty has a worst position, and `worst_of` names it.
pub proof fn lemma_worst_exists(fits: Seq<Score>)
    requires
        fits.len() > 0,
    ensures
        is_worst(fits, worst_of(fits)),
    decreases fits.len(),
{
    if fits.len() == 1 {
        assert(is_worst(fits, 0));
    } else {
        let front = fits.drop_last();
        lemma_worst_exists(front);
        let b = worst_of(front);
        let n = fits.len() - 1;
        assert forall|j: int| 0 <= j < n implies fits[j] == front[j] by {}
        if fits[n].rank() < fits[b].rank() {
            assert forall|j: int| 0 <= j < fits.len() implies (#[trigger] fits[j]).rank()
                >= fits[n].rank() by {
                if j < n {
                    assert(front[j].rank() >= front[b].rank());
                }
            }
            assert forall|j: int| 0 <= j < n implies (#[trigger] fits[j]).rank()
                > fits[n].rank() by {
                assert(front[j].rank() >= front[b].rank());
            }
            assert(is_worst(fits, n));
        } else {
            assert forall|j: int| 0 <= j < fits.len() implies (#[trigger] fits[j]).rank()
                >= fits[b].rank() by {
                if j < n {
                    assert(front[j].rank() >= front[b].rank());
                }
            }
            assert forall|j: int| 0 <= j < b implies (#[trigger] fits[j]).rank()
                > fits[b].rank() by {
                assert(front[j].rank() > front[b].rank());
            }
            assert(is_worst(fits, b));
        }
    }
}

/// The position of the worst score. The list must not be empty.
pub fn worst_index(fits: &Vec<Score>) -> (r: usize)
    requires
        fits.len() > 0,
    ensures
        is_worst(fits@, r as int),
        r == worst_of(fits@),
{
    let mut worst: usize = 0;
    let mut worst_key: u32 = fits[0].key();
    let mut i: usize = 1;
    while i < fits.len()
        invariant
            1 <= i <= fits.len(),
            worst < i,
            worst_key == fits[worst as int].rank(),
            forall|j: int| 0 <= j < i ==> (#[trigger] fits[j]).rank() >= worst_key,
            forall|j: int| 0 <= j < worst ==> (#[trigger] fits[j]).rank() > worst_key,
        decreases fits.len() - i,
    {
        let k: u32 = fits[i].key();
        if k < worst_key {
            worst = i;
            worst_key = k;
        }
        i += 1;
    }
    proof {
        assert(is_worst(fits@, worst as int));
        lemma_worst_unique(fits@, worst as int, worst_of(fits@));
    }
    worst
}

} // verus!
