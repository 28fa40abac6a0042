//! The driver over passes: a run of the engine is one pass after another,
//! until the budget of evaluations is used up.

use crate::de::pass::{over_floor, Outcome, PassError};
use crate::de::DePlus;
use crate::rng::{derived_seed, worker_seed};
use crate::score::{lemma_finite_above_neg_infinity, Score};
use crate::{never_fall, Report};
use vstd::prelude::*;

verus! {

/// The state of a run over its passes.
#[derive(Debug)]
pub struct Campaign<T> {
    /// The seed of the run.
    pub seed: u64,
    /// Candidates in a population.
    pub lambda: usize,
    /// The budget of evaluations.
    pub total: usize,
    /// Evaluations made by the passes that have ended.
    pub spent: usize,
    /// The best score any pass ended on.
    pub best_fit: Score,
    /// The candidate that has it.
    pub best_cand: Vec<T>,
    /// What the passes reported, generation by generation, pass after pass.
    pub reports: Vec<Report>,
}

/// The pass to run next.
#[derive(Clone, Copy, Debug)]
pub struct PassOrder {
    /// The seed of the pass: the seed of the run, offset by the evaluations
    /// made so far.
    pub seed: u64,
    /// The budget of the pass: what is left of the run's.
    pub budget: usize,
    /// The best score of the passes that have ended, if any has: the pass
    /// reports nothing below it.
    pub floor: Option<Score>,
}

/// Two lists of reports that never fall make one that never falls, where the
/// second starts no lower than the first ends.
pub proof fn lemma_never_fall_join(a: Seq<Report>, b: Seq<Report>)
    requires
        never_fall(a),
        never_fall(b),
        a.len() > 0 && b.len() > 0 ==> a.last().best.rank() <= b[0].best.rank()
            && a.last().remaining >= b[0].remaining,
    ensures
        never_fall(a + b),
{
    let all = a + b;
    assert forall|i: int, j: int| 0 <= i <= j < all.len() implies (#[trigger] all[i]).best.rank()
        <= (#[trigger] all[j]).best.rank() && all[i].remaining >= all[j].remaining by {
        if j < a.len() {
            assert(all[i] == a[i] && all[j] == a[j]);
        } else if i >= a.len() {
            assert(all[i] == b[i - a.len()] && all[j] == b[j - a.len()]);
        } else {
            assert(all[i] == a[i] && all[j] == b[j - a.len()]);
            assert(a[i].best.rank() <= a[a.len() - 1].best.rank());
            assert(b[0].best.rank() <= b[j - a.len()].best.rank());
        }
    }
}

impl<T> Campaign<T> {
    /// The evaluations of the budget that are left.
    pub open spec fn remaining(&self) -> usize {
        if self.spent < self.total {
            (self.total - self.spent) as usize
        } else {
            0
        }
    }

    /// The floor of the next pass: the best so far, once a pass has ended.
    pub open spec fn floor(&self) -> Option<Score> {
        if self.spent > 0 {
            Some(self.best_fit)
        } else {
            None
        }
    }

    /// The evaluations made stay below the budget and one population, the
    /// best score is the one below all numbers until a pass has ended and
    /// finite from then on, and the reports never fall, nor is the best
    /// score below the last of them.
    pub open spec fn wf(&self) -> bool {
        &&& self.lambda > 0
        &&& self.total + self.lambda <= usize::MAX
        &&& self.spent == 0 || self.spent < self.total + self.lambda
        &&& self.spent > 0 ==> self.best_fit.finite()
        &&& self.spent == 0 ==> self.reports.len() == 0 && self.best_fit
            == Score::spec_neg_infinity()
        &&& never_fall(self.reports@)
        &&& self.reports.len() > 0 ==> self.reports@.last().best.rank() <= self.best_fit.rank()
            && self.reports@.last().remaining >= self.remaining()
    }

    /// What a pass that ran on the order given last may hand back: a finite
    /// best, at least one evaluation and at most one population beyond what
    /// was left, and reports that never fall, say no more is left than was
    /// left to the pass, and are not below the floor.
    pub open spec fn takes(&self, outcome: Outcome<T>) -> bool {
        &&& outcome.score.finite()
        &&& outcome.evaluations > 0
        &&& outcome.evaluations == self.lambda || outcome.evaluations < self.total - self.spent
            + self.lambda
        &&& never_fall(outcome.reports@)
        &&& forall|k: int|
            0 <= k < outcome.reports.len() ==> (#[trigger] outcome.reports[k]).remaining
                <= self.total - self.spent && (self.floor() matches Some(f) ==> f.rank()
                <= outcome.reports[k].best.rank())
        &&& outcome.reports.len() > 0 ==> outcome.reports@.last().best.rank() <= over_floor(
            self.floor(),
            outcome.score,
        ).rank() && (outcome.evaluations >= self.total - self.spent
            || outcome.reports@.last().remaining >= self.total - self.spent - outcome.evaluations)
    }

    /// Starts a run: nothing is spent, and the best so far is `origin` with
    /// the score below all numbers.
    pub fn begin<D>(de: &DePlus<D>, total: usize, seed: u64, origin: Vec<T>) -> (run: Campaign<T>)
        requires
            de.lambda > 0,
            total + de.lambda <= usize::MAX,
        ensures
            run.wf(),
            run.seed == seed,
            run.lambda == de.lambda,
            run.total == total,
            run.spent == 0,
            run.best_fit == Score::spec_neg_infinity(),
            run.best_cand == origin,
            run.reports@ == Seq::<Report>::empty(),
    {
        Campaign {
            seed,
            lambda: de.lambda,
            total,
            spent: 0,
            best_fit: Score::neg_infinity(),
            best_cand: origin,
            reports: Vec::new(),
        }
    }

    /// The next pass, as long as budget is left. When none is left, the
    /// evaluations made are at least the budget.
    pub fn next_pass(&self) -> (order: Option<PassOrder>)
        requires
            self.wf(),
        ensures
            order is Some <==> self.spent < self.total,
            order matches Some(o) ==> o.seed == derived_seed(self.seed, self.spent, 0) && o.budget
                == self.total - self.spent && o.floor == self.floor(),
            order is None ==> self.total <= self.spent,
    {
        if self.spent < self.total {
            Some(
                PassOrder {
                    seed: worker_seed(self.seed, self.spent, 0),
                    budget: self.total - self.spent,
                    floor: if self.spent > 0 {
                        Some(self.best_fit)
                    } else {
                        None
                    },
                },
            )
        } else {
            None
        }
    }

    /// Takes the outcome of the pass that was ordered last: its evaluations
    /// are spent, its reports are kept, and it becomes the best so far if its
    /// score stands higher than the best so far, which among finite scores
    /// is to be the greater number, or the positive zero against the
    /// negative. The best so far never falls.
    pub fn absorb(&mut self, outcome: Outcome<T>)
        requires
            old(self).wf(),
            old(self).spent < old(self).total,
            old(self).takes(outcome),
        ensures
            final(self).wf(),
            final(self).seed == old(self).seed,
            final(self).lambda == old(self).lambda,
            final(self).total == old(self).total,
            final(self).spent == old(self).spent + outcome.evaluations,
            final(self).reports@ == old(self).reports@ + outcome.reports@,
            outcome.score.rank() > old(self).best_fit.rank() ==> final(self).best_fit
                == outcome.score && final(self).best_cand == outcome.candidate,
            outcome.score.rank() <= old(self).best_fit.rank() ==> final(self).best_fit == old(
                self,
            ).best_fit && final(self).best_cand == old(self).best_cand,
            old(self).spent == 0 ==> final(self).best_fit == outcome.score && final(self).best_cand
                == outcome.candidate,
            final(self).best_fit.rank() >= old(self).best_fit.rank(),
            final(self).best_fit.rank() >= outcome.score.rank(),
    {
        proof {
            lemma_never_fall_join(self.reports@, outcome.reports@);
            lemma_finite_above_neg_infinity(outcome.score);
            if outcome.reports.len() > 0 {
                assert((self.reports@ + outcome.reports@).last() == outcome.reports@.last());
            } else {
                assert(self.reports@ + outcome.reports@ =~= self.reports@);
            }
        }
        self.spent += outcome.evaluations;
        let mut told: Vec<Report> = outcome.reports;
        self.reports.append(&mut told);
        if outcome.score.key() > self.best_fit.key() {
            self.best_fit = outcome.score;
            self.best_cand = outcome.candidate;
        }
    }

    /// The result of the run: the best score over all passes and its
    /// candidate. A run in which no pass has ended has none.
    pub fn finish(self) -> (r: Result<(Score, Vec<T>), PassError>)
        requires
            self.wf(),
        ensures
            r is Ok <==> self.spent > 0,
            r matches Ok(best) ==> best.0 == self.best_fit && best.1 == self.best_cand
                && best.0.finite(),
            r matches Err(e) ==> e == PassError::NoBudget,
    {
        if self.spent == 0 {
            return Err(PassError::NoBudget);
        }
        Ok((self.best_fit, self.best_cand))
    }
}

} // verus!
