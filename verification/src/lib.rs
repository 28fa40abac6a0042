//! Population-based stochastic optimisers for black-box objectives.
//!
//! Three engines search for a candidate that an objective scores highest:
//! differential evolution with restarts ([`de`]), a genetic algorithm over
//! pluggable strategies ([`ga`]) and particle swarm optimisation ([`pso`]).
//! Each keeps a population of fixed size, spends a budget of evaluations
//! generation by generation, and reports its best score after each.
//!
//! The engines are here whole but for the arithmetic on coordinates: which
//! candidate is best, what a pass does next, which coordinates cross over,
//! whether a trial is accepted, how the budget is counted, and the loops
//! over generations. Scores are bit patterns ([`score`]). Coordinates are of
//! any type the caller likes: what an engine has to compute on them, a
//! sample, a sum, a donor coordinate, comes in as closures. So does the work
//! of a whole generation, which a caller may spread over threads: every
//! candidate draws from a random stream of its own ([`rng`]), so the order in
//! which they are worked on changes nothing.

pub mod de;
pub mod exp;
pub mod ga;
pub mod pso;
pub mod rank;
pub mod rng;
pub mod score;
pub mod vector;

use crate::score::Score;
use vstd::prelude::*;

verus! {

/// An objective: it scores a candidate, and higher is better. A score that is
/// not finite makes the engines reject the candidate.
pub trait Fitness: Send + Sync {
    /// What a candidate is.
    type Data;

    /// What is promised of the score given to `candidate`. An objective that
    /// says nothing of itself promises nothing.
    open spec fn gives(&self, candidate: &Self::Data, score: Score) -> bool {
        true
    }

    /// The score of `candidate`.
    fn score(&self, candidate: &Self::Data) -> (score: Score)
        ensures
            self.gives(candidate, score),
    ;
}

/// The objective promises that every score it gives is finite.
pub open spec fn finite_valued<F: Fitness>(fit_fn: &F) -> bool {
    forall|candidate: &F::Data, score: Score|
        #[trigger] fit_fn.gives(candidate, score) ==> score.finite()
}

/// The objective gave each member of a population its score.
pub open spec fn all_scored<F: Fitness>(fit_fn: &F, members: Seq<F::Data>, scores: Seq<Score>) -> bool {
    &&& members.len() == scores.len()
    &&& forall|i: int| 0 <= i < members.len() ==> fit_fn.gives(&members[i], #[trigger] scores[i])
}

/// `best` is not below the score of a warm start, if there is one: the
/// objective gave the warm start a score that does not stand higher.
pub open spec fn not_below_start<F: Fitness>(fit_fn: &F, x_in: Option<F::Data>, best: Score) -> bool {
    match x_in {
        Some(x) => exists|s: Score| #[trigger] fit_fn.gives(&x, s) && s.rank() <= best.rank(),
        None => true,
    }
}

/// The objective gave `score` to some candidate.
pub open spec fn was_given<F: Fitness>(fit_fn: &F, score: Score) -> bool {
    exists|candidate: F::Data| #[trigger] fit_fn.gives(&candidate, score)
}

/// `callback` has been told every one of `reports`: it took the report's
/// best score and what the report says is left.
pub open spec fn told<C: FnMut(Score, usize) -> ()>(callback: C, reports: Seq<Report>) -> bool {
    forall|k: int|
        0 <= k < reports.len() ==> call_ensures(
            callback,
            ((#[trigger] reports[k]).best, reports[k].remaining),
            (),
        )
}

/// What is left of a budget of `total` evaluations once `done` are made.
pub open spec fn left_of(total: int, done: int) -> int {
    if done < total {
        total - done
    } else {
        0
    }
}

/// What an engine reports once per generation.
#[derive(Clone, Copy, Debug)]
pub struct Report {
    /// The best score of the population.
    pub best: Score,
    /// How many evaluations of the budget are left.
    pub remaining: usize,
}

/// From one report to the next the best score never falls and the
/// evaluations left never rise.
pub open spec fn never_fall(reports: Seq<Report>) -> bool {
    forall|i: int, j: int|
        0 <= i <= j < reports.len() ==> (#[trigger] reports[i]).best.rank() <= (
        #[trigger] reports[j]).best.rank() && reports[i].remaining >= reports[j].remaining
}

/// A list of reports that never fall still does not with one more report
/// that is not below its last.
pub proof fn lemma_never_fall_push(reports: Seq<Report>, next: Report)
    requires
        never_fall(reports),
        reports.len() > 0 ==> reports.last().best.rank() <= next.best.rank()
            && reports.last().remaining >= next.remaining,
    ensures
        never_fall(reports.push(next)),
{
    let longer = reports.push(next);
    assert forall|i: int, j: int| 0 <= i <= j < longer.len() implies (#[trigger] longer[i]).best.rank()
        <= (#[trigger] longer[j]).best.rank() && longer[i].remaining >= longer[j].remaining by {
        if j < reports.len() {
            assert(longer[i] == reports[i] && longer[j] == reports[j]);
        } else if i < reports.len() {
            assert(longer[i] == reports[i]);
            assert(reports[i].best.rank() <= reports[reports.len() - 1].best.rank());
        }
    }
}

/// An engine. It spends about `total_fns` evaluations of `fit_fn` and returns
/// the best score it found with the candidate that has it. All its random
/// draws come from `seed`. `x_in`, if given, is a candidate to start from.
/// `callback` is called once per generation with a progress figure and the
/// evaluations that are left.
pub trait Optimizer: Clone + core::fmt::Debug + Send + Sync {
    /// The progress figure handed to the callback.
    type Stats;

    /// What a candidate is.
    type Data: Clone + Send + Sync;

    /// Runs the engine.
    fn fit<F: Fitness<Data = Self::Data>, FN: FnMut(Self::Stats, usize) -> ()>(
        &self,
        fit_fn: &F,
        total_fns: usize,
        seed: u64,
        x_in: Option<&Self::Data>,
        callback: FN,
    ) -> (Score, Self::Data);
}

} // verus!
