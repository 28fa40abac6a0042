//! Tournament selection.

use crate::ga::Selector;
use crate::rng::uniform_index;
use crate::score::Score;
use rand::rngs::StdRng;
use vstd::prelude::*;

verus! {

/// Tournament selection: so many positions are drawn, and the one with the
/// best score wins.
#[derive(Clone, Copy, Debug)]
pub struct Tournament(pub usize);

/// Draw number `w` wins the tournament: no drawn position has a score that
/// stands higher, and every position drawn after it has one that stands
/// strictly lower, so among equal scores the one drawn last wins.
pub open spec fn wins(fitnesses: Seq<Score>, draws: Seq<usize>, w: int) -> bool {
    &&& 0 <= w < draws.len()
    &&& forall|j: int|
        0 <= j < draws.len() ==> fitnesses[(#[trigger] draws[j]) as int].rank()
            <= fitnesses[draws[w] as int].rank()
    &&& forall|j: int|
        w < j < draws.len() ==> fitnesses[(#[trigger] draws[j]) as int].rank()
            < fitnesses[draws[w] as int].rank()
}

/// The draw that wins a tournament with at least one draw.
pub open spec fn winning_draw(fitnesses: Seq<Score>, draws: Seq<usize>) -> int {
    choose|w: int| wins(fitnesses, draws, w)
}

/// A tournament has at most one winning draw.
pub proof fn lemma_winner_unique(fitnesses: Seq<Score>, draws: Seq<usize>, v: int, w: int)
    requires
        wins(fitnesses, draws, v),
        wins(fitnesses, draws, w),
    ensures
        v == w,
{
    if v < w {
        assert(fitnesses[draws[w] as int].rank() < fitnesses[draws[v] as int].rank());
        assert(fitnesses[draws[v] as int].rank() <= fitnesses[draws[w] as int].rank());
    } else if w < v {
        assert(fitnesses[draws[v] as int].rank() < fitnesses[draws[w] as int].rank());
        assert(fitnesses[draws[w] as int].rank() <= fitnesses[draws[v] as int].rank());
    }
}

/// The position that wins the tournament among the drawn positions. There
/// must be a draw, and every draw must be a position of `fitnesses`.
pub fn winner(fitnesses: &Vec<Score>, draws: &Vec<usize>) -> (r: usize)
    requires
        draws.len() > 0,
        forall|j: int| 0 <= j < draws.len() ==> draws[j] < fitnesses.len(),
    ensures
        r < fitnesses.len(),
        wins(fitnesses@, draws@, winning_draw(fitnesses@, draws@)),
        r == draws[winning_draw(fitnesses@, draws@)],
{
    let mut at: usize = 0;
    let mut key: u32 = fitnesses[draws[0]].key();
    let mut i: usize = 1;
    while i < draws.len()
        invariant
            1 <= i <= draws.len(),
            at < i,
            forall|j: int| 0 <= j < draws.len() ==> draws[j] < fitnesses.len(),
            key == fitnesses[draws[at as int] as int].rank(),
            forall|j: int| 0 <= j < i ==> fitnesses[(#[trigger] draws[j]) as int].rank() <= key,
            forall|j: int| at < j < i ==> fitnesses[(#[trigger] draws[j]) as int].rank() < key,
        decreases draws.len() - i,
    {
        let k: u32 = fitnesses[draws[i]].key();
        if k >= key {
            at = i;
            key = k;
        }
        i += 1;
    }
    proof {
        assert(wins(fitnesses@, draws@, at as int));
        lemma_winner_unique(fitnesses@, draws@, at as int, winning_draw(fitnesses@, draws@));
    }
    draws[at]
}

/// Position `r` is the outcome of a tournament of `places` draws on
/// `fitnesses`: `draws` are that many positions of `fitnesses`, and `r` is
/// the one the winning draw drew.
pub open spec fn is_tournament(fitnesses: Seq<Score>, draws: Seq<usize>, places: usize, r: usize) -> bool {
    &&& draws.len() == places
    &&& forall|j: int| 0 <= j < draws.len() ==> (#[trigger] draws[j]) < fitnesses.len()
    &&& wins(fitnesses, draws, winning_draw(fitnesses, draws))
    &&& r == draws[winning_draw(fitnesses, draws)]
}

impl Selector for Tournament {
    /// A tournament needs at least one draw.
    open spec fn usable(&self) -> bool {
        self.0 > 0
    }

    /// Draws as many positions as the tournament has places, uniformly and
    /// with repetition, and returns the winner among them: a position whose
    /// score no drawn position beats.
    fn select(&self, fitnesses: &Vec<Score>, rng: &mut StdRng) -> (r: usize)
        ensures
            exists|draws: Seq<usize>| is_tournament(fitnesses@, draws, self.0, r),
    {
        let mut draws: Vec<usize> = Vec::with_capacity(self.0);
        let mut i: usize = 0;
        while i < self.0
            invariant
                i <= self.0,
                draws.len() == i,
                fitnesses.len() > 0,
                forall|j: int| 0 <= j < i ==> draws[j] < fitnesses.len(),
            decreases self.0 - i,
        {
            let d: usize = uniform_index(rng, 0, fitnesses.len());
            draws.push(d);
            i += 1;
        }
        let r: usize = winner(fitnesses, &draws);
        assert(is_tournament(fitnesses@, draws@, self.0, r));
        r
    }
}

} // verus!
