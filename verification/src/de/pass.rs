//! One pass of the engine: from a first population to the end of the budget,
//! or to the point where the pass is given up for a fresh one.
//!
//! A [`Pass`] owns the population, its scores and the counters. It says what
//! comes next ([`Pass::next`]); the caller does the work on the coordinates
//! and hands the outcome back ([`Pass::polished`], [`Pass::commit`]).

use crate::de::{threshold, DePlus};
use crate::rank::{best_index, best_of, is_best, lemma_best_exists, lemma_top_dominates, top};
use crate::score::{lemma_greater_raises_rank, Score};
use crate::{left_of, lemma_never_fall_push, never_fall, Report};
use vstd::prelude::*;

verus! {

/// What one candidate became in a generation, before it is accepted or not.
#[derive(Debug)]
pub struct Trial<T> {
    /// Whether the candidate escaped; if not, it was recombined.
    pub escaped: bool,
    /// The new coordinates.
    pub candidate: Vec<T>,
    /// Their score.
    pub score: Score,
}

impl<T> Trial<T> {
    /// Whether the trial replaces a candidate whose score is `held`: an escape
    /// whenever its score is finite, a recombination only if its score is
    /// finite and strictly greater than `held`.
    pub open spec fn accepted(self, held: Score) -> bool {
        if self.escaped {
            self.score.finite()
        } else {
            self.score.betters(held)
        }
    }

    /// Whether the trial replaces a candidate whose score is `held`.
    pub fn is_accepted(&self, held: Score) -> (r: bool)
        ensures
            r == self.accepted(held),
    {
        if self.escaped {
            self.score.is_finite()
        } else {
            self.score.improves_on(held)
        }
    }
}

/// What a pass does next.
#[derive(Clone, Copy, Debug, PartialEq, Eq, Structural)]
pub enum Step {
    /// The budget is used up.
    Done,
    /// The best score has not improved for too long: the pass is given up.
    Restart,
    /// No score has improved for too long: every candidate but `best` is to
    /// be sampled anew around `best`.
    Polish { best: usize },
    /// A generation: every candidate is to escape or to be recombined.
    Evolve { best: usize },
}

/// What a pass waits for.
#[derive(Clone, Copy, Debug, PartialEq, Eq, Structural)]
pub enum Phase {
    /// Nothing: the next step can be asked for.
    Idle,
    /// The candidates sampled anew around `best`.
    AwaitFresh { best: usize },
    /// The trials of a generation whose best candidate is `best`.
    AwaitTrials { best: usize },
}

/// How a pass ended.
#[derive(Debug)]
pub struct Outcome<T> {
    /// Evaluations the pass made.
    pub evaluations: usize,
    /// The best score of the last population.
    pub score: Score,
    /// The candidate that has it.
    pub candidate: Vec<T>,
    /// What the pass reported, generation by generation.
    pub reports: Vec<Report>,
}

/// What a pass, or a run of passes, cannot end on.
#[derive(Clone, Copy, Debug, PartialEq, Eq, Structural)]
pub enum PassError {
    /// The best score of the last population is not finite.
    NonFiniteBest,
    /// The budget is 0: nothing may be scored, so there is no best.
    NoBudget,
}

/// The state of a pass.
#[derive(Debug)]
pub struct Pass<T> {
    /// Coordinates per candidate.
    pub dims: usize,
    /// Candidates in the population.
    pub lambda: usize,
    /// Generations without any improvement before a polish; 0 for never.
    pub polish_after: usize,
    /// Generations without a better best before the pass is given up; 0 for
    /// never.
    pub restart_after: usize,
    /// The budget of evaluations.
    pub total: usize,
    /// The population.
    pub pop: Vec<Vec<T>>,
    /// The score of each candidate.
    pub fits: Vec<Score>,
    /// Evaluations made so far.
    pub fns: usize,
    /// The best score seen at the start of any generation.
    pub best_fit: Score,
    /// Generations since the last polish or improvement of `best_fit`.
    pub stale_len: usize,
    /// Generations since `best_fit` last improved.
    pub last_update: usize,
    /// What the pass waits for.
    pub phase: Phase,
    /// What the pass has reported so far, generation by generation.
    pub reports: Vec<Report>,
    /// The best score of the passes before this one, if there were any: no
    /// report of the pass is below it.
    pub floor: Option<Score>,
}

/// The verdict on the counters, once they have taken an improvement into
/// account: give up, polish, or go on.
pub open spec fn verdict(
    restart_after: usize,
    polish_after: usize,
    stale: usize,
    since: usize,
    best: usize,
) -> Step {
    if restart_after > 0 && since == restart_after {
        Step::Restart
    } else if polish_after > 0 && stale == polish_after {
        Step::Polish { best }
    } else {
        Step::Evolve { best }
    }
}

/// The higher of a floor, if there is one, and a score.
pub open spec fn over_floor(floor: Option<Score>, score: Score) -> Score {
    match floor {
        Some(f) => if f.rank() > score.rank() {
            f
        } else {
            score
        },
        None => score,
    }
}

impl<T> Pass<T> {
    /// The best score to report: that of the population, or the floor where
    /// that stands higher.
    pub open spec fn reported(&self) -> Score {
        over_floor(self.floor, top(self.fits@))
    }

    /// The evaluations of the budget that are left.
    pub open spec fn remaining(&self) -> usize {
        if self.fns < self.total {
            (self.total - self.fns) as usize
        } else {
            0
        }
    }

    /// The population and its scores have the configured size, every
    /// candidate has the configured length, the counters are consistent with
    /// the evaluations made, at most one generation ran past the budget, and
    /// the reports never fall, nor is the population's best score below the
    /// last of them.
    pub open spec fn wf(&self) -> bool {
        &&& self.lambda > 0
        &&& never_fall(self.reports@)
        &&& self.reports.len() > 0 ==> self.reports@.last().best.rank() <= self.reported().rank()
            && self.reports@.last().remaining >= self.remaining()
        &&& forall|k: int|
            0 <= k < self.reports.len() ==> (#[trigger] self.reports[k]).remaining <= self.total
                && (self.floor matches Some(f) ==> f.rank() <= self.reports[k].best.rank())
        &&& self.polish_after == 0 ==> self.fns == self.lambda * (self.reports.len() + 1)
        &&& self.polish_after == 0 ==> forall|k: int|
            0 <= k < self.reports.len() ==> (#[trigger] self.reports[k]).remaining == left_of(
                self.total as int,
                self.lambda * (k + 2),
            )
        &&& self.fns == self.lambda || self.fns < self.total + self.lambda
        &&& self.pop.len() == self.lambda
        &&& self.fits.len() == self.lambda
        &&& forall|i: int| 0 <= i < self.lambda ==> (#[trigger] self.pop[i]).len() == self.dims
        &&& self.total + self.lambda <= usize::MAX
        &&& self.lambda <= self.fns <= self.total + self.lambda
        &&& match self.phase {
            Phase::Idle => self.stale_len + self.lambda <= self.fns && self.last_update
                + self.lambda <= self.fns,
            Phase::AwaitFresh { best } => {
                &&& self.polish_after > 0
                &&& self.fns < self.total
                &&& is_best(self.fits@, best as int)
                &&& self.stale_len + self.lambda <= self.fns
                &&& self.last_update + self.lambda <= self.fns
            },
            Phase::AwaitTrials { best } => {
                &&& self.fns < self.total
                &&& is_best(self.fits@, best as int)
                &&& self.stale_len + self.lambda <= self.fns + 1
                &&& self.last_update + self.lambda <= self.fns + 1
            },
        }
    }

    /// The best score of the population is strictly greater than the best
    /// seen before.
    pub open spec fn improved(&self) -> bool {
        top(self.fits@).greater(self.best_fit)
    }

    /// Generations without any improvement, the present population counted.
    pub open spec fn stale_now(&self) -> usize {
        if self.improved() {
            0
        } else {
            self.stale_len
        }
    }

    /// Generations without a better best, the present population counted.
    pub open spec fn since_now(&self) -> usize {
        if self.improved() {
            0
        } else {
            self.last_update
        }
    }

    /// What the pass does next.
    pub open spec fn decision(&self) -> Step {
        if self.fns >= self.total {
            Step::Done
        } else {
            verdict(
                self.restart_after,
                self.polish_after,
                self.stale_now(),
                self.since_now(),
                best_of(self.fits@) as usize,
            )
        }
    }

    /// The counter of generations without improvement once the next step has
    /// been taken in full: back to 0 after a polish, one more after a
    /// generation.
    pub open spec fn stale_after_step(&self) -> int {
        match self.decision() {
            Step::Done => self.stale_len as int,
            Step::Restart => self.stale_now() as int,
            Step::Polish { best } => 0,
            Step::Evolve { best } => self.stale_now() + 1,
        }
    }

    /// Starts a pass on a population that has been scored: `lambda`
    /// evaluations are made, and nothing has been seen yet.
    pub fn begin<D>(de: &DePlus<D>, total: usize, pop: Vec<Vec<T>>, fits: Vec<Score>) -> (pass:
        Pass<T>)
        requires
            de.lambda > 0,
            pop.len() == de.lambda,
            fits.len() == de.lambda,
            forall|i: int| 0 <= i < pop.len() ==> (#[trigger] pop[i]).len() == de.dims,
            total + de.lambda <= usize::MAX,
        ensures
            pass.wf(),
            pass.dims == de.dims,
            pass.lambda == de.lambda,
            pass.polish_after == threshold(de.polish_on_stale),
            pass.restart_after == threshold(de.restart_on_stale),
            pass.total == total,
            pass.pop == pop,
            pass.fits == fits,
            pass.fns == de.lambda,
            pass.best_fit == Score::spec_neg_infinity(),
            pass.stale_len == 0,
            pass.last_update == 0,
            pass.phase == Phase::Idle,
            pass.reports@ == Seq::<Report>::empty(),
            pass.floor is None,
    {
        assert(de.lambda * 1 == de.lambda) by (nonlinear_arith);
        Pass {
            dims: de.dims,
            lambda: de.lambda,
            polish_after: de.polish_after(),
            restart_after: de.restart_after(),
            total,
            pop,
            fits,
            fns: de.lambda,
            best_fit: Score::neg_infinity(),
            stale_len: 0,
            last_update: 0,
            phase: Phase::Idle,
            reports: Vec::new(),
            floor: None,
        }
    }

    /// Says what comes next, and counts. With budget left, an improvement of
    /// the best score resets both counters; then the pass is given up, or
    /// polished, or a generation starts, which both counters count.
    pub fn next(&mut self) -> (step: Step)
        requires
            old(self).wf(),
            old(self).phase == Phase::Idle,
        ensures
            final(self).wf(),
            step == old(self).decision(),
            final(self).dims == old(self).dims,
            final(self).lambda == old(self).lambda,
            final(self).polish_after == old(self).polish_after,
            final(self).restart_after == old(self).restart_after,
            final(self).total == old(self).total,
            final(self).pop == old(self).pop,
            final(self).fits == old(self).fits,
            final(self).fns == old(self).fns,
            final(self).reports == old(self).reports,
            final(self).floor == old(self).floor,
            step is Done ==> *final(self) == *old(self),
            step is Done ==> old(self).total <= old(self).fns <= old(self).total + old(self).lambda,
            !(step is Done) ==> final(self).best_fit == (if old(self).improved() {
                top(old(self).fits@)
            } else {
                old(self).best_fit
            }),
            step is Restart ==> final(self).phase == Phase::Idle && final(self).stale_len == old(
                self,
            ).stale_now() && final(self).last_update == old(self).since_now(),
            step matches Step::Polish { best } ==> final(self).phase == (Phase::AwaitFresh { best })
                && final(self).stale_len == old(self).stale_now() && final(self).last_update
                == old(self).since_now(),
            step matches Step::Evolve { best } ==> final(self).phase == (Phase::AwaitTrials {
                best,
            }) && final(self).stale_len == old(self).stale_now() + 1 && final(self).last_update
                == old(self).since_now() + 1,
    {
        if self.fns >= self.total {
            return Step::Done;
        }
        let best: usize = best_index(&self.fits);
        if self.fits[best].exceeds(self.best_fit) {
            self.best_fit = self.fits[best];
            self.stale_len = 0;
            self.last_update = 0;
        }
        if self.restart_after > 0 && self.last_update == self.restart_after {
            return Step::Restart;
        }
        if self.polish_after > 0 && self.stale_len == self.polish_after {
            self.phase = Phase::AwaitFresh { best };
            return Step::Polish { best };
        }
        self.stale_len += 1;
        self.last_update += 1;
        self.phase = Phase::AwaitTrials { best };
        Step::Evolve { best }
    }

    /// Takes the candidates sampled anew around the best one, and their
    /// scores. The best candidate and its score stay as they are, whatever
    /// `fresh` and `scores` hold in its place; every other candidate and score
    /// is replaced. One evaluation per replaced candidate is counted, and the
    /// counter of generations without improvement starts again from 0.
    pub fn polished(&mut self, fresh: Vec<Vec<T>>, scores: Vec<Score>)
        requires
            old(self).wf(),
            old(self).phase is AwaitFresh,
            fresh.len() == old(self).lambda,
            scores.len() == old(self).lambda,
            forall|i: int| 0 <= i < fresh.len() ==> (#[trigger] fresh[i]).len() == old(self).dims,
        ensures
            final(self).wf(),
            final(self).phase == Phase::Idle,
            final(self).dims == old(self).dims,
            final(self).lambda == old(self).lambda,
            final(self).polish_after == old(self).polish_after,
            final(self).restart_after == old(self).restart_after,
            final(self).total == old(self).total,
            final(self).best_fit == old(self).best_fit,
            final(self).last_update == old(self).last_update,
            final(self).stale_len == 0,
            final(self).reports == old(self).reports,
            final(self).floor == old(self).floor,
            final(self).fns == old(self).fns + old(self).lambda - 1,
            forall|i: int|
                0 <= i < old(self).lambda ==> #[trigger] final(self).pop[i] == (if i == old(
                    self,
                ).phase->AwaitFresh_best {
                    old(self).pop[i]
                } else {
                    fresh[i]
                }),
            forall|i: int|
                0 <= i < old(self).lambda ==> #[trigger] final(self).fits[i] == (if i == old(
                    self,
                ).phase->AwaitFresh_best {
                    old(self).fits[i]
                } else {
                    scores[i]
                }),
            top(final(self).fits@).rank() >= top(old(self).fits@).rank(),
    {
        let best: usize = match self.phase {
            Phase::AwaitFresh { best } => best,
            _ => 0,
        };
        let ghost pop0 = self.pop@;
        let ghost fits0 = self.fits@;
        let ghost fresh0 = fresh@;
        let mut fresh = fresh;
        let mut i: usize = self.lambda;
        while i > 0
            invariant
                i <= self.lambda,
                best < self.lambda,
                self.lambda == pop0.len(),
                self.lambda == fits0.len(),
                self.lambda == scores.len(),
                self.lambda == fresh0.len(),
                self.pop.len() == self.lambda,
                self.fits.len() == self.lambda,
                fresh@ == fresh0.subrange(0, i as int),
                forall|j: int| 0 <= j < fresh0.len() ==> (#[trigger] fresh0[j]).len() == self.dims,
                forall|j: int| 0 <= j < pop0.len() ==> (#[trigger] pop0[j]).len() == self.dims,
                forall|j: int| 0 <= j < i ==> #[trigger] self.pop@[j] == pop0[j],
                forall|j: int| 0 <= j < i ==> #[trigger] self.fits@[j] == fits0[j],
                forall|j: int|
                    i <= j < self.lambda ==> #[trigger] self.pop@[j] == (if j == best {
                        pop0[j]
                    } else {
                        fresh0[j]
                    }),
                forall|j: int|
                    i <= j < self.lambda ==> #[trigger] self.fits@[j] == (if j == best {
                        fits0[j]
                    } else {
                        scores[j]
                    }),
                self.dims == old(self).dims,
                self.lambda == old(self).lambda,
                self.polish_after == old(self).polish_after,
                self.restart_after == old(self).restart_after,
                self.total == old(self).total,
                self.best_fit == old(self).best_fit,
                self.last_update == old(self).last_update,
                self.stale_len == old(self).stale_len,
                self.fns == old(self).fns,
                self.phase == old(self).phase,
                self.reports == old(self).reports,
                self.floor == old(self).floor,
            decreases i,
        {
            i -= 1;
            let candidate: Vec<T> = fresh.pop().unwrap();
            if i != best {
                self.pop.set(i, candidate);
                self.fits.set(i, scores[i]);
            }
        }
        self.fns += self.lambda - 1;
        self.stale_len = 0;
        self.phase = Phase::Idle;
        proof {
            lemma_top_dominates(self.fits@, best as int);
            lemma_best_exists(fits0);
            crate::rank::lemma_best_unique(fits0, best as int, best_of(fits0));
        }
    }

    /// Takes the trials of a generation, one per candidate, and accepts or
    /// rejects each: an accepted trial replaces the candidate and its score, a
    /// rejected one leaves both as they were. The trial of the best candidate
    /// must be a recombination. The generation's `lambda` evaluations are
    /// counted. The best score of the new population is reported: it is never
    /// lower than that of the old one.
    pub fn commit(&mut self, trials: Vec<Trial<T>>) -> (report: Report)
        requires
            old(self).wf(),
            old(self).phase is AwaitTrials,
            trials.len() == old(self).lambda,
            !trials[old(self).phase->AwaitTrials_best as int].escaped,
            forall|i: int|
                0 <= i < trials.len() ==> (#[trigger] trials[i]).candidate.len() == old(self).dims,
        ensures
            final(self).wf(),
            final(self).phase == Phase::Idle,
            final(self).dims == old(self).dims,
            final(self).lambda == old(self).lambda,
            final(self).polish_after == old(self).polish_after,
            final(self).restart_after == old(self).restart_after,
            final(self).total == old(self).total,
            final(self).best_fit == old(self).best_fit,
            final(self).last_update == old(self).last_update,
            final(self).stale_len == old(self).stale_len,
            final(self).reports@ == old(self).reports@.push(report),
            final(self).floor == old(self).floor,
            final(self).fns == old(self).fns + old(self).lambda,
            forall|i: int|
                0 <= i < old(self).lambda ==> #[trigger] final(self).pop[i] == (if trials[i].accepted(
                    old(self).fits[i],
                ) {
                    trials[i].candidate
                } else {
                    old(self).pop[i]
                }),
            forall|i: int|
                0 <= i < old(self).lambda ==> #[trigger] final(self).fits[i] == (if trials[i].accepted(
                    old(self).fits[i],
                ) {
                    trials[i].score
                } else {
                    old(self).fits[i]
                }),
            report.best == final(self).reported(),
            report.remaining == (if final(self).fns < final(self).total {
                final(self).total - final(self).fns
            } else {
                0
            }),
            top(final(self).fits@).rank() >= top(old(self).fits@).rank(),
    {
        let ghost best: int = self.phase->AwaitTrials_best as int;
        let ghost pop0 = self.pop@;
        let ghost fits0 = self.fits@;
        let ghost trials0 = trials@;
        let mut trials = trials;
        let mut i: usize = self.lambda;
        while i > 0
            invariant
                i <= self.lambda,
                self.lambda == pop0.len(),
                self.lambda == fits0.len(),
                self.lambda == trials0.len(),
                self.pop.len() == self.lambda,
                self.fits.len() == self.lambda,
                trials@ == trials0.subrange(0, i as int),
                forall|j: int|
                    0 <= j < trials0.len() ==> (#[trigger] trials0[j]).candidate.len() == self.dims,
                forall|j: int| 0 <= j < pop0.len() ==> (#[trigger] pop0[j]).len() == self.dims,
                forall|j: int| 0 <= j < i ==> #[trigger] self.pop@[j] == pop0[j],
                forall|j: int| 0 <= j < i ==> #[trigger] self.fits@[j] == fits0[j],
                forall|j: int|
                    i <= j < self.lambda ==> #[trigger] self.pop@[j] == (if trials0[j].accepted(
                        fits0[j],
                    ) {
                        trials0[j].candidate
                    } else {
                        pop0[j]
                    }),
                forall|j: int|
                    i <= j < self.lambda ==> #[trigger] self.fits@[j] == (if trials0[j].accepted(
                        fits0[j],
                    ) {
                        trials0[j].score
                    } else {
                        fits0[j]
                    }),
                self.dims == old(self).dims,
                self.lambda == old(self).lambda,
                self.polish_after == old(self).polish_after,
                self.restart_after == old(self).restart_after,
                self.total == old(self).total,
                self.best_fit == old(self).best_fit,
                self.last_update == old(self).last_update,
                self.stale_len == old(self).stale_len,
                self.fns == old(self).fns,
                self.phase == old(self).phase,
                self.reports == old(self).reports,
                self.floor == old(self).floor,
            decreases i,
        {
            i -= 1;
            let trial: Trial<T> = trials.pop().unwrap();
            if trial.is_accepted(self.fits[i]) {
                self.fits.set(i, trial.score);
                self.pop.set(i, trial.candidate);
            }
        }
        self.fns += self.lambda;
        self.phase = Phase::Idle;
        let top_at: usize = best_index(&self.fits);
        proof {
            if trials0[best].accepted(fits0[best]) {
                lemma_greater_raises_rank(trials0[best].score, fits0[best]);
            }
            lemma_top_dominates(self.fits@, best);
            lemma_best_exists(fits0);
            crate::rank::lemma_best_unique(fits0, best, best_of(fits0));
        }
        let top_now: Score = self.fits[top_at];
        let best_now: Score = match self.floor {
            Some(f) => if f.key() > top_now.key() {
                f
            } else {
                top_now
            },
            None => top_now,
        };
        let report = Report {
            best: best_now,
            remaining: if self.fns < self.total {
                self.total - self.fns
            } else {
                0
            },
        };
        proof {
            lemma_never_fall_push(self.reports@, report);
            assert(self.lambda * (self.reports.len() + 1 + 1) == self.lambda * (self.reports.len()
                + 1) + self.lambda) by (nonlinear_arith);
        }
        self.reports.push(report);
        report
    }

    /// Ends the pass: the evaluations made, the best score of the population
    /// and the candidate that has it. A best score that is not finite is an
    /// error.
    pub fn finish(self) -> (r: Result<Outcome<T>, PassError>)
        requires
            self.wf(),
            self.phase == Phase::Idle,
        ensures
            r is Ok <==> top(self.fits@).finite(),
            r matches Ok(o) ==> {
                &&& o.evaluations == self.fns
                &&& o.score == top(self.fits@)
                &&& o.candidate == self.pop[best_of(self.fits@)]
                &&& o.reports == self.reports
                &&& never_fall(o.reports@)
                &&& o.reports.len() > 0 ==> o.reports@.last().best.rank() <= over_floor(
                    self.floor,
                    o.score,
                ).rank() && o.reports@.last().remaining >= self.remaining()
                &&& forall|k: int|
                    0 <= k < o.reports.len() ==> (#[trigger] o.reports[k]).remaining <= self.total
                        && (self.floor matches Some(f) ==> f.rank() <= o.reports[k].best.rank())
                &&& o.candidate.len() == self.dims
                &&& o.evaluations <= self.total + self.lambda
                &&& o.evaluations >= self.lambda
                &&& o.evaluations == self.lambda || o.evaluations < self.total + self.lambda
                &&& self.polish_after == 0 ==> o.evaluations == self.lambda * (o.reports.len() + 1)
                &&& self.polish_after == 0 ==> forall|k: int|
                    0 <= k < o.reports.len() ==> (#[trigger] o.reports[k]).remaining == left_of(
                        self.total as int,
                        self.lambda * (k + 2),
                    )
            },
            r matches Err(e) ==> e == PassError::NonFiniteBest,
    {
        let best: usize = best_index(&self.fits);
        let score: Score = self.fits[best];
        if !score.is_finite() {
            return Err(PassError::NonFiniteBest);
        }
        let evaluations: usize = self.fns;
        let mut pop: Vec<Vec<T>> = self.pop;
        let candidate: Vec<T> = pop.swap_remove(best);
        Ok(Outcome { evaluations, score, candidate, reports: self.reports })
    }
}

/// Polishing comes after exactly the configured number of generations
/// without improvement. `trace` holds the states of a pass at the moments its
/// next step is asked for; no state shows an improvement, the budget is not
/// used up, the pass is never given up, and each state counts as the step
/// before it left the counter. Counted from a counter at 0, the step taken is
/// a polish at every position that is the threshold modulo the threshold plus
/// one, and a generation at every other.
pub proof fn lemma_polish_after_stale<T>(trace: Seq<Pass<T>>, polish_after: usize)
    requires
        polish_after > 0,
        trace.len() > 0,
        trace[0].stale_len == 0,
        forall|i: int|
            0 <= i < trace.len() ==> {
                &&& (#[trigger] trace[i]).wf()
                &&& trace[i].fns < trace[i].total
                &&& !trace[i].improved()
                &&& trace[i].restart_after == 0
                &&& trace[i].polish_after == polish_after
            },
        forall|i: int|
            0 <= i < trace.len() - 1 ==> (#[trigger] trace[i + 1]).stale_len
                == trace[i].stale_after_step(),
    ensures
        forall|i: int|
            0 <= i < trace.len() ==> (#[trigger] trace[i]).stale_len == i % (polish_after + 1),
        forall|i: int|
            0 <= i < trace.len() ==> ((#[trigger] trace[i]).decision() is Polish <==> i % (
            polish_after + 1) == polish_after),
        forall|i: int|
            0 <= i < trace.len() ==> ((#[trigger] trace[i]).decision() is Evolve <==> i % (
            polish_after + 1) != polish_after),
{
    let p = polish_after as int;
    assert forall|i: int| 0 <= i < trace.len() implies (#[trigger] trace[i]).stale_len == i % (p
        + 1) by {
        lemma_stale_periodic(trace, polish_after, i);
    }
}

/// The counter of the state at position `i` of such a trace.
proof fn lemma_stale_periodic<T>(trace: Seq<Pass<T>>, polish_after: usize, i: int)
    requires
        polish_after > 0,
        0 <= i < trace.len(),
        trace[0].stale_len == 0,
        forall|k: int|
            0 <= k < trace.len() ==> {
                &&& (#[trigger] trace[k]).wf()
                &&& trace[k].fns < trace[k].total
                &&& !trace[k].improved()
                &&& trace[k].restart_after == 0
                &&& trace[k].polish_after == polish_after
            },
        forall|k: int|
            0 <= k < trace.len() - 1 ==> (#[trigger] trace[k + 1]).stale_len
                == trace[k].stale_after_step(),
    ensures
        trace[i].stale_len == i % (polish_after + 1),
    decreases i,
{
    let p = polish_after as int;
    if i == 0 {
        assert(0int % (p + 1) == 0) by (nonlinear_arith)
            requires
                p > 0,
        ;
    } else {
        lemma_stale_periodic(trace, polish_after, i - 1);
        let before = trace[i - 1];
        assert(trace[i - 1 + 1].stale_len == before.stale_after_step());
        let r = (i - 1) % (p + 1);
        assert(0 <= r < p + 1 && (r == p ==> i % (p + 1) == 0) && (r != p ==> i % (p + 1) == r
            + 1)) by (nonlinear_arith)
            requires
                r == (i - 1) % (p + 1),
                p > 0,
                i >= 1,
        ;
    }
}

} // verus!
