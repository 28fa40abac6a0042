//! The engine's loops: one pass from its first population to its end, and a
//! run of passes until the budget is spent.
//!
//! The loops draw and decide. The arithmetic on coordinates comes in as
//! closures: `sample` draws one coordinate from the initialisation
//! distribution, `shift` adds two coordinates, `dither` draws a learning rate,
//! and `evolve` makes the trials of a whole generation, which is the work
//! that can be spread over threads. The trial of one candidate is made here
//! too ([`DePlus::trial`]), on closures for what is arithmetic in it. The
//! numeric settings, which are bit patterns, are handed to the closures that
//! they concern.

use crate::de::campaign::{Campaign, PassOrder};
use crate::de::pass::{over_floor, Outcome, Pass, PassError, Phase, Step, Trial};
use crate::de::crossover::{splice, spliced, Span};
use crate::de::{recentre, threshold, DePlus, Move};
use crate::rng::{seeded, worker_rng};
use crate::score::Score;
use crate::vector::{blend, blended, copy_of, filled};
use crate::rank::{all_finite, lemma_best_exists, lemma_top_dominates, lemma_top_of_finite, top};
use crate::{finite_valued, left_of, never_fall, told, Fitness};
use rand::rngs::StdRng;
use vstd::prelude::*;

verus! {

/// The trials are what a pass that waits for a generation can take: one per
/// candidate, each of the candidates' length, and the one of the best
/// candidate a recombination.
pub open spec fn trials_fit<T>(pass: &Pass<T>, best: usize, trials: Seq<Trial<T>>) -> bool {
    &&& trials.len() == pass.lambda
    &&& !trials[best as int].escaped
    &&& forall|i: int| 0 <= i < trials.len() ==> (#[trigger] trials[i]).candidate.len() == pass.dims
}

/// `donors` holds, coordinate by coordinate, what `donor` makes of the
/// learning rate, the best candidate and two others.
pub open spec fn are_donors<T, R, Don: Fn(R, T, T, T) -> T>(
    rate: R,
    best: Seq<T>,
    a: Seq<T>,
    b: Seq<T>,
    donors: Seq<T>,
    donor: Don,
) -> bool {
    &&& donors.len() == best.len()
    &&& forall|i: int|
        0 <= i < best.len() ==> call_ensures(
            donor,
            (rate, best[i], a[i], b[i]),
            #[trigger] donors[i],
        )
}

/// `out` is a recombination of candidate `idx` of `pop`: the candidate with
/// some coordinates taken from donors made of the best candidate and two
/// other members of the population, distinct from one another. With
/// two-point crossover the coordinates taken are a cyclic run, which with
/// more than one dimension is neither empty nor the whole candidate.
pub open spec fn is_recombination<T, R, Don: Fn(R, T, T, T) -> T>(
    pop: Seq<Vec<T>>,
    idx: int,
    best: int,
    two_point: bool,
    rate: R,
    out: Seq<T>,
    donor: Don,
) -> bool {
    exists|a: int, b: int, donors: Seq<T>|
        {
            &&& 0 <= a < pop.len()
            &&& 0 <= b < pop.len()
            &&& a != b
            &&& #[trigger] are_donors(rate, pop[best]@, pop[a]@, pop[b]@, donors, donor)
            &&& if two_point {
                exists|span: Span|
                    {
                        &&& span.within(pop[idx].len() as int)
                        &&& pop[idx].len() > 1 ==> span.start != span.end
                        &&& out == #[trigger] spliced(pop[idx]@, donors, span)
                    }
            } else {
                exists|take: Seq<bool>|
                    take.len() == pop[idx].len() && out == #[trigger] blended(
                        pop[idx]@,
                        donors,
                        take,
                    )
            }
        }
}

/// `out` is where `jump` can take candidate `orig`, given the best one and
/// the expansion constant.
pub open spec fn is_escape<T, Jump: Fn(&Vec<T>, &Vec<T>, u32, &mut StdRng) -> Vec<T>>(
    orig: &Vec<T>,
    best: &Vec<T>,
    exp: u32,
    out: Vec<T>,
    jump: Jump,
) -> bool {
    exists|g: &mut StdRng| call_ensures(jump, (orig, best, exp, g), out)
}

/// The objective gave each trial's candidate the trial's score.
pub open spec fn trials_scored<T, F: Fitness<Data = Vec<T>>>(fit_fn: &F, trials: Seq<Trial<T>>) -> bool {
    forall|i: int|
        0 <= i < trials.len() ==> fit_fn.gives(&(#[trigger] trials[i]).candidate, trials[i].score)
}

/// The objective gave each candidate of a population its score.
pub open spec fn scored_by<T, F: Fitness<Data = Vec<T>>>(
    fit_fn: &F,
    pop: Seq<Vec<T>>,
    fits: Seq<Score>,
) -> bool {
    forall|i: int| 0 <= i < pop.len() ==> fit_fn.gives(&pop[i], #[trigger] fits[i])
}

/// `best` is not below the score of the warm start: the objective gave the
/// warm start a score that does not stand higher than `best`.
pub open spec fn warm_start_kept<T, F: Fitness<Data = Vec<T>>>(
    fit_fn: &F,
    x_in: Seq<T>,
    best: Score,
) -> bool {
    exists|start: Vec<T>, s: Score|
        start@ == x_in && #[trigger] fit_fn.gives(&start, s) && s.rank() <= best.rank()
}

/// `best` is not below the score of a warm start of `dims` coordinates, if
/// there is one.
pub open spec fn kept_from<T, F: Fitness<Data = Vec<T>>>(
    fit_fn: &F,
    x_in: Option<&Vec<T>>,
    dims: usize,
    best: Score,
) -> bool {
    match x_in {
        Some(v) => v.len() == dims ==> warm_start_kept(fit_fn, v@, best),
        None => true,
    }
}

/// What is not below the warm start's score is not below it either once it
/// has risen.
pub proof fn lemma_warm_start_rises<T, F: Fitness<Data = Vec<T>>>(
    fit_fn: &F,
    x_in: Seq<T>,
    best: Score,
    higher: Score,
)
    requires
        warm_start_kept(fit_fn, x_in, best),
        best.rank() <= higher.rank(),
    ensures
        warm_start_kept(fit_fn, x_in, higher),
{
    let (start, s) = choose|start: Vec<T>, s: Score|
        start@ == x_in && #[trigger] fit_fn.gives(&start, s) && s.rank() <= best.rank();
    assert(start@ == x_in && fit_fn.gives(&start, s) && s.rank() <= higher.rank());
}

/// A generation has been made as the engine makes them: `dither` drew a
/// learning rate from the range `f`, and `evolve` made trials for a pass that
/// waited for them, handed that rate and the seed of the pass.
pub open spec fn is_evolved<
    T,
    R,
    Dth: FnMut((u32, u32), &mut StdRng) -> R,
    G: FnMut(&Pass<T>, R, u64, usize) -> Vec<Trial<T>>,
>(f: (u32, u32), seed: u64, dither: Dth, evolve: G) -> bool {
    exists|pass: Pass<T>, g: &mut StdRng, f_lr: R, best: usize, out: Vec<Trial<T>>|
        {
            &&& pass.wf()
            &&& pass.phase == (Phase::AwaitTrials { best })
            &&& #[trigger] call_ensures(dither, (f, g), f_lr)
            &&& #[trigger] call_ensures(evolve, (&pass, f_lr, seed, best), out)
        }
}

/// `escapes` can draw `drawn` against the likelihood `m`.
pub open spec fn is_escape_draw<Esc: Fn(u32, &mut StdRng) -> bool>(m: u32, drawn: bool, escapes: Esc) -> bool {
    exists|g: &mut StdRng| call_ensures(escapes, (m, g), drawn)
}

/// `value` is something that `sample` can draw from `dist`.
pub open spec fn is_sample<D, T, S: FnMut(&D, &mut StdRng) -> T>(dist: &D, value: T, sample: S) -> bool {
    exists|g: &mut StdRng| call_ensures(sample, (dist, g), value)
}

/// `value` is `centre` shifted by something that `sample` can draw from
/// `dist`.
pub open spec fn is_around<D, T, S: FnMut(&D, &mut StdRng) -> T, A: Fn(T, T) -> T>(
    dist: &D,
    centre: T,
    value: T,
    sample: S,
    shift: A,
) -> bool {
    exists|drawn: T|
        is_sample(dist, drawn, sample) && #[trigger] call_ensures(shift, (centre, drawn), value)
}

/// The donors for a recombination: coordinate by coordinate what `donor`
/// makes of the learning rate, the best candidate and the two partners.
pub fn donors<T: Copy, R: Copy, Don: Fn(R, T, T, T) -> T>(
    rate: R,
    best: &Vec<T>,
    a: &Vec<T>,
    b: &Vec<T>,
    donor: &Don,
) -> (r: Vec<T>)
    requires
        a.len() == best.len(),
        b.len() == best.len(),
        forall|f: R, x: T, y: T, z: T| call_requires(*donor, (f, x, y, z)),
    ensures
        are_donors(rate, best@, a@, b@, r@, *donor),
{
    let mut r: Vec<T> = Vec::with_capacity(best.len());
    let mut i: usize = 0;
    while i < best.len()
        invariant
            i <= best.len(),
            a.len() == best.len(),
            b.len() == best.len(),
            r.len() == i,
            forall|f: R, x: T, y: T, z: T| call_requires(*donor, (f, x, y, z)),
            forall|k: int|
                0 <= k < i ==> call_ensures(
                    *donor,
                    (rate, best[k], a[k], b[k]),
                    #[trigger] r[k],
                ),
        decreases best.len() - i,
    {
        r.push(donor(rate, best[i], a[i], b[i]));
        i += 1;
    }
    r
}

impl<D> DePlus<D> {
    /// Makes the trial of candidate `idx` in a generation of `pass` whose
    /// best candidate is `best`, on the candidate's own random stream, and
    /// scores it. The stream is seeded by the pass's seed, the evaluations
    /// made and the candidate's position, so that trials can be made in any
    /// order and on any thread.
    ///
    /// A candidate other than the best escapes exactly if `escapes` draws so
    /// for the configured likelihood, and `jump` says where to, given the candidate,
    /// the best and the configured expansion. Otherwise the candidate is
    /// recombined: two partners are drawn, `donor` makes the donor
    /// coordinates of the learning rate `f_lr`, the best's and the partners',
    /// and the candidate takes the donor's coordinates on a drawn cyclic run,
    /// or wherever `takes` draws so for the configured rate.
    pub fn trial<T, R, F, Esc, Jump, Don, Take>(
        &self,
        fit_fn: &F,
        pass: &Pass<T>,
        f_lr: R,
        seed: u64,
        idx: usize,
        best: usize,
        escapes: &Esc,
        jump: &Jump,
        donor: &Don,
        takes: &Take,
    ) -> (t: Trial<T>)
        where
            T: Copy,
            R: Copy,
            F: Fitness<Data = Vec<T>>,
            Esc: Fn(u32, &mut StdRng) -> bool,
            Jump: Fn(&Vec<T>, &Vec<T>, u32, &mut StdRng) -> Vec<T>,
            Don: Fn(R, T, T, T) -> T,
            Take: Fn(u32, &mut StdRng) -> bool,
        requires
            pass.wf(),
            self.lambda == pass.lambda,
            self.dims == pass.dims,
            self.lambda >= 2,
            self.cr is TwoPoint ==> self.dims > 0,
            idx < pass.lambda,
            best < pass.lambda,
            forall|m: u32, g: &mut StdRng| call_requires(*escapes, (m, g)),
            forall|o: &Vec<T>, b: &Vec<T>, e: u32, g: &mut StdRng|
                call_requires(*jump, (o, b, e, g)),
            forall|o: &Vec<T>, b: &Vec<T>, e: u32, g: &mut StdRng, out: Vec<T>|
                call_ensures(*jump, (o, b, e, g), out) ==> out.len() == o.len(),
            forall|f: R, x: T, y: T, z: T| call_requires(*donor, (f, x, y, z)),
            forall|r: u32, g: &mut StdRng| call_requires(*takes, (r, g)),
        ensures
            t.candidate.len() == pass.dims,
            fit_fn.gives(&t.candidate, t.score),
            idx == best ==> !t.escaped,
            idx != best ==> is_escape_draw(self.m, t.escaped, *escapes),
            t.escaped ==> is_escape(
                &pass.pop[idx as int],
                &pass.pop[best as int],
                self.exp,
                t.candidate,
                *jump,
            ),
            !t.escaped ==> is_recombination(
                pass.pop@,
                idx as int,
                best as int,
                self.cr is TwoPoint,
                f_lr,
                t.candidate@,
                *donor,
            ),
    {
        let mut local_rng: StdRng = worker_rng(seed, pass.fns, idx);
        let drawn: bool = self.may_escape(idx, best) && escapes(self.m, &mut local_rng);
        assert(idx != best ==> is_escape_draw(self.m, drawn, *escapes));
        let orig: &Vec<T> = &pass.pop[idx];
        let top: &Vec<T> = &pass.pop[best];
        match self.plan(idx, best, drawn, &mut local_rng) {
            Move::Escape => {
                let candidate: Vec<T> = jump(orig, top, self.exp, &mut local_rng);
                assert(is_escape(orig, top, self.exp, candidate, *jump));
                let score: Score = fit_fn.score(&candidate);
                Trial { escaped: true, candidate, score }
            },
            Move::TwoPoint { a, b, span } => {
                let made: Vec<T> = donors(f_lr, top, &pass.pop[a], &pass.pop[b], donor);
                let candidate: Vec<T> = splice(orig, &made, span);
                proof {
                    assert(are_donors(
                        f_lr,
                        pass.pop@[best as int]@,
                        pass.pop@[a as int]@,
                        pass.pop@[b as int]@,
                        made@,
                        *donor,
                    ));
                    assert(candidate@ == spliced(pass.pop@[idx as int]@, made@, span));
                }
                let score: Score = fit_fn.score(&candidate);
                Trial { escaped: false, candidate, score }
            },
            Move::Uniform { a, b, rate } => {
                let mut take: Vec<bool> = Vec::with_capacity(orig.len());
                let mut i: usize = 0;
                while i < orig.len()
                    invariant
                        i <= orig.len(),
                        take.len() == i,
                        forall|r: u32, g: &mut StdRng| call_requires(*takes, (r, g)),
                    decreases orig.len() - i,
                {
                    take.push(takes(rate, &mut local_rng));
                    i += 1;
                }
                let made: Vec<T> = donors(f_lr, top, &pass.pop[a], &pass.pop[b], donor);
                let candidate: Vec<T> = blend(orig, &made, &take);
                proof {
                    assert(are_donors(
                        f_lr,
                        pass.pop@[best as int]@,
                        pass.pop@[a as int]@,
                        pass.pop@[b as int]@,
                        made@,
                        *donor,
                    ));
                    assert(candidate@ == blended(pass.pop@[idx as int]@, made@, take@));
                }
                let score: Score = fit_fn.score(&candidate);
                Trial { escaped: false, candidate, score }
            },
        }
    }

    /// Makes the trials of a whole generation, one candidate after the other.
    /// Every trial is what [`DePlus::trial`] makes of its candidate, so the
    /// trials are the same in whatever order, and on whatever threads, they
    /// are made.
    pub fn generation<T, R, F, Esc, Jump, Don, Take>(
        &self,
        fit_fn: &F,
        pass: &Pass<T>,
        f_lr: R,
        seed: u64,
        best: usize,
        escapes: &Esc,
        jump: &Jump,
        donor: &Don,
        takes: &Take,
    ) -> (trials: Vec<Trial<T>>)
        where
            T: Copy,
            R: Copy,
            F: Fitness<Data = Vec<T>>,
            Esc: Fn(u32, &mut StdRng) -> bool,
            Jump: Fn(&Vec<T>, &Vec<T>, u32, &mut StdRng) -> Vec<T>,
            Don: Fn(R, T, T, T) -> T,
            Take: Fn(u32, &mut StdRng) -> bool,
        requires
            pass.wf(),
            self.lambda == pass.lambda,
            self.dims == pass.dims,
            self.lambda >= 2,
            self.cr is TwoPoint ==> self.dims > 0,
            best < pass.lambda,
            forall|m: u32, g: &mut StdRng| call_requires(*escapes, (m, g)),
            forall|o: &Vec<T>, b: &Vec<T>, e: u32, g: &mut StdRng|
                call_requires(*jump, (o, b, e, g)),
            forall|o: &Vec<T>, b: &Vec<T>, e: u32, g: &mut StdRng, out: Vec<T>|
                call_ensures(*jump, (o, b, e, g), out) ==> out.len() == o.len(),
            forall|f: R, x: T, y: T, z: T| call_requires(*donor, (f, x, y, z)),
            forall|r: u32, g: &mut StdRng| call_requires(*takes, (r, g)),
        ensures
            trials_fit(pass, best, trials@),
            forall|i: int|
                0 <= i < pass.lambda ==> fit_fn.gives(
                    &(#[trigger] trials[i]).candidate,
                    trials[i].score,
                ),
            forall|i: int|
                0 <= i < pass.lambda && i != best ==> is_escape_draw(
                    self.m,
                    (#[trigger] trials[i]).escaped,
                    *escapes,
                ),
            forall|i: int|
                0 <= i < pass.lambda && (#[trigger] trials[i]).escaped ==> is_escape(
                    &pass.pop[i],
                    &pass.pop[best as int],
                    self.exp,
                    trials[i].candidate,
                    *jump,
                ),
            forall|i: int|
                0 <= i < pass.lambda && !(#[trigger] trials[i]).escaped ==> is_recombination(
                    pass.pop@,
                    i,
                    best as int,
                    self.cr is TwoPoint,
                    f_lr,
                    trials[i].candidate@,
                    *donor,
                ),
    {
        let mut trials: Vec<Trial<T>> = Vec::with_capacity(pass.lambda);
        let mut idx: usize = 0;
        while idx < pass.lambda
            invariant
                idx <= pass.lambda,
                trials.len() == idx,
                pass.wf(),
                self.lambda == pass.lambda,
                self.dims == pass.dims,
                self.lambda >= 2,
                self.cr is TwoPoint ==> self.dims > 0,
                best < pass.lambda,
                forall|m: u32, g: &mut StdRng| call_requires(*escapes, (m, g)),
                forall|o: &Vec<T>, b: &Vec<T>, e: u32, g: &mut StdRng|
                    call_requires(*jump, (o, b, e, g)),
                forall|o: &Vec<T>, b: &Vec<T>, e: u32, g: &mut StdRng, out: Vec<T>|
                    call_ensures(*jump, (o, b, e, g), out) ==> out.len() == o.len(),
                forall|f: R, x: T, y: T, z: T| call_requires(*donor, (f, x, y, z)),
                forall|r: u32, g: &mut StdRng| call_requires(*takes, (r, g)),
                idx > best ==> !trials[best as int].escaped,
                forall|i: int|
                    0 <= i < idx ==> (#[trigger] trials[i]).candidate.len() == pass.dims,
                forall|i: int|
                    0 <= i < idx ==> fit_fn.gives(
                        &(#[trigger] trials[i]).candidate,
                        trials[i].score,
                    ),
                forall|i: int|
                    0 <= i < idx && i != best ==> is_escape_draw(
                        self.m,
                        (#[trigger] trials[i]).escaped,
                        *escapes,
                    ),
                forall|i: int|
                    0 <= i < idx && (#[trigger] trials[i]).escaped ==> is_escape(
                        &pass.pop[i],
                        &pass.pop[best as int],
                        self.exp,
                        trials[i].candidate,
                        *jump,
                    ),
                forall|i: int|
                    0 <= i < idx && !(#[trigger] trials[i]).escaped ==> is_recombination(
                        pass.pop@,
                        i,
                        best as int,
                        self.cr is TwoPoint,
                        f_lr,
                        trials[i].candidate@,
                        *donor,
                    ),
            decreases pass.lambda - idx,
        {
            let trial: Trial<T> = self.trial(
                fit_fn,
                pass,
                f_lr,
                seed,
                idx,
                best,
                escapes,
                jump,
                donor,
                takes,
            );
            trials.push(trial);
            idx += 1;
        }
        trials
    }

    /// A first population: `lambda` candidates of `dims` coordinates, each
    /// coordinate one draw of `sample`, candidate by candidate.
    pub fn first_population<T, S>(&self, rng: &mut StdRng, sample: &mut S) -> (pop: Vec<Vec<T>>)
        where S: FnMut(&D, &mut StdRng) -> T
        requires
            forall|d: &D, g: &mut StdRng| call_requires(*old(sample), (d, g)),
        ensures
            *final(sample) == *old(sample),
            pop.len() == self.lambda,
            forall|i: int| 0 <= i < pop.len() ==> (#[trigger] pop[i]).len() == self.dims,
            forall|i: int, j: int|
                0 <= i < self.lambda && 0 <= j < self.dims ==> is_sample(
                    &self.init_dist,
                    #[trigger] pop[i][j],
                    *old(sample),
                ),
    {
        let mut pop: Vec<Vec<T>> = Vec::with_capacity(self.lambda);
        let mut i: usize = 0;
        while i < self.lambda
            invariant
                i <= self.lambda,
                pop.len() == i,
                *sample == *old(sample),
                forall|d: &D, g: &mut StdRng| call_requires(*sample, (d, g)),
                forall|k: int| 0 <= k < i ==> (#[trigger] pop[k]).len() == self.dims,
                forall|k: int, j: int|
                    0 <= k < i && 0 <= j < self.dims ==> is_sample(
                        &self.init_dist,
                        #[trigger] pop[k][j],
                        *sample,
                    ),
            decreases self.lambda - i,
        {
            let mut row: Vec<T> = Vec::with_capacity(self.dims);
            let mut j: usize = 0;
            while j < self.dims
                invariant
                    j <= self.dims,
                    row.len() == j,
                    *sample == *old(sample),
                    forall|d: &D, g: &mut StdRng| call_requires(*sample, (d, g)),
                    forall|h: int|
                        0 <= h < j ==> is_sample(&self.init_dist, #[trigger] row[h], *sample),
                decreases self.dims - j,
            {
                let value: T = sample(&self.init_dist, rng);
                assert(is_sample(&self.init_dist, value, *sample));
                row.push(value);
                j += 1;
            }
            pop.push(row);
            i += 1;
        }
        pop
    }

    /// The candidates of a polish and their scores: every candidate but the
    /// best is sampled anew around the best, coordinate by coordinate the
    /// best's shifted by a fresh draw, and then scored. In the place of the
    /// best stand a copy of it and its score.
    pub fn resample<T, F, S, A>(
        &self,
        fit_fn: &F,
        pass: &Pass<T>,
        best: usize,
        rng: &mut StdRng,
        sample: &mut S,
        shift: &A,
    ) -> (r: (Vec<Vec<T>>, Vec<Score>))
        where
            T: Copy,
            F: Fitness<Data = Vec<T>>,
            S: FnMut(&D, &mut StdRng) -> T,
            A: Fn(T, T) -> T,
        requires
            pass.wf(),
            best < pass.lambda,
            forall|d: &D, g: &mut StdRng| call_requires(*old(sample), (d, g)),
            forall|a: T, b: T| call_requires(*shift, (a, b)),
        ensures
            *final(sample) == *old(sample),
            r.0.len() == pass.lambda,
            r.1.len() == pass.lambda,
            r.0[best as int]@ == pass.pop[best as int]@,
            r.1[best as int] == pass.fits[best as int],
            forall|i: int|
                0 <= i < pass.lambda && i != best ==> fit_fn.gives(&r.0[i], #[trigger] r.1[i]),
            forall|i: int| 0 <= i < r.0.len() ==> (#[trigger] r.0[i]).len() == pass.dims,
            forall|i: int, j: int|
                0 <= i < pass.lambda && i != best && 0 <= j < pass.dims ==> is_around(
                    &self.init_dist,
                    pass.pop[best as int][j],
                    #[trigger] r.0[i][j],
                    *old(sample),
                    *shift,
                ),
    {
        let mut fresh: Vec<Vec<T>> = Vec::with_capacity(pass.lambda);
        let mut i: usize = 0;
        while i < pass.lambda
            invariant
                i <= pass.lambda,
                pass.wf(),
                best < pass.lambda,
                fresh.len() == i,
                *sample == *old(sample),
                forall|d: &D, g: &mut StdRng| call_requires(*sample, (d, g)),
                forall|a: T, b: T| call_requires(*shift, (a, b)),
                forall|k: int| 0 <= k < i ==> (#[trigger] fresh[k]).len() == pass.dims,
                i > best ==> fresh[best as int]@ == pass.pop[best as int]@,
                forall|k: int, j: int|
                    0 <= k < i && k != best && 0 <= j < pass.dims ==> is_around(
                        &self.init_dist,
                        pass.pop[best as int][j],
                        #[trigger] fresh[k][j],
                        *sample,
                        *shift,
                    ),
            decreases pass.lambda - i,
        {
            let centre: &Vec<T> = &pass.pop[best];
            if i == best {
                fresh.push(copy_of(centre));
            } else {
                let mut row: Vec<T> = Vec::with_capacity(centre.len());
                let mut j: usize = 0;
                while j < centre.len()
                    invariant
                        j <= centre.len(),
                        centre.len() == pass.dims,
                        best < pass.pop.len(),
                        centre@ == pass.pop[best as int]@,
                        row.len() == j,
                        *sample == *old(sample),
                        forall|d: &D, g: &mut StdRng| call_requires(*sample, (d, g)),
                        forall|a: T, b: T| call_requires(*shift, (a, b)),
                        forall|h: int|
                            0 <= h < j ==> is_around(
                                &self.init_dist,
                                centre[h],
                                #[trigger] row[h],
                                *sample,
                                *shift,
                            ),
                    decreases centre.len() - j,
                {
                    let drawn: T = sample(&self.init_dist, rng);
                    let value: T = shift(centre[j], drawn);
                    assert(is_sample(&self.init_dist, drawn, *sample));
                    assert(is_around(&self.init_dist, centre[j as int], value, *sample, *shift));
                    row.push(value);
                    j += 1;
                }
                fresh.push(row);
            }
            i += 1;
        }
        let mut scores: Vec<Score> = Vec::with_capacity(pass.lambda);
        let mut k: usize = 0;
        while k < pass.lambda
            invariant
                k <= pass.lambda,
                pass.wf(),
                best < pass.lambda,
                fresh.len() == pass.lambda,
                scores.len() == k,
                k > best ==> scores[best as int] == pass.fits[best as int],
                forall|i: int|
                    0 <= i < k && i != best ==> fit_fn.gives(&fresh[i], #[trigger] scores[i]),
            decreases pass.lambda - k,
        {
            if k == best {
                scores.push(pass.fits[best]);
            } else {
                scores.push(fit_fn.score(&fresh[k]));
            }
            k += 1;
        }
        (fresh, scores)
    }

    /// Runs one pass on a budget of `total_fns` evaluations, all its draws
    /// coming from `seed`. The first population is sampled, centred on the
    /// warm start `x_in` if there is one, and scored. Then the pass takes one
    /// step after the other. A polish is sampled and scored here. For a
    /// generation `dither` draws the learning rate from the configured range,
    /// and `evolve` makes the trials and their scores, handed the pass, the
    /// learning rate, the seed of the pass and the position of the best
    /// candidate; after every generation `callback` is told the best score,
    /// which is that of the population or `floor` where that stands higher,
    /// and the evaluations left. A population of one candidate cannot run a
    /// generation, so it must have no budget for one.
    ///
    /// A pass that ends on a finite best score returns it with its candidate,
    /// to which the objective gave it, and the evaluations made, which stay
    /// below the budget and one population unless the first scoring alone
    /// went beyond, and, unless passes can be given up, are no fewer than the
    /// budget; without polish they are one population for the first scoring
    /// and one for every report. The best is not below the score of the warm
    /// start. A pass whose best score is not finite at its end is an error.
    /// That cannot happen where the objective gives finite scores only: the
    /// first scores are finite then, a polish brings in finite scores, and no
    /// trial is accepted on a score that is not finite.
    pub fn run_pass<T, R, F, S, A, Dth, G, C>(
        &self,
        fit_fn: &F,
        total_fns: usize,
        seed: u64,
        x_in: Option<&Vec<T>>,
        floor: Option<Score>,
        sample: &mut S,
        shift: &A,
        dither: &mut Dth,
        evolve: &mut G,
        callback: &mut C,
    ) -> (r: Result<Outcome<T>, PassError>)
        where
            T: Copy,
            R: Copy,
            F: Fitness<Data = Vec<T>>,
            S: FnMut(&D, &mut StdRng) -> T,
            A: Fn(T, T) -> T,
            Dth: FnMut((u32, u32), &mut StdRng) -> R,
            G: FnMut(&Pass<T>, R, u64, usize) -> Vec<Trial<T>>,
            C: FnMut(Score, usize) -> (),
        requires
            self.lambda > 0,
            self.lambda >= 2 || total_fns <= 1,
            total_fns + self.lambda <= usize::MAX,
            forall|d: &D, g: &mut StdRng| call_requires(*old(sample), (d, g)),
            forall|a: T, b: T| call_requires(*shift, (a, b)),
            forall|range: (u32, u32), g: &mut StdRng| call_requires(*old(dither), (range, g)),
            forall|p: &Pass<T>, f: R, s: u64, b: usize|
                p.wf() && p.phase == (Phase::AwaitTrials { best: b }) ==> call_requires(
                    *old(evolve),
                    (p, f, s, b),
                ),
            forall|p: &Pass<T>, f: R, s: u64, b: usize, out: Vec<Trial<T>>|
                p.wf() && p.phase == (Phase::AwaitTrials { best: b }) && call_ensures(
                    *old(evolve),
                    (p, f, s, b),
                    out,
                ) ==> trials_fit(p, b, out@) && trials_scored(fit_fn, out@),
            forall|s: Score, n: usize| call_requires(*old(callback), (s, n)),
        ensures
            *final(sample) == *old(sample),
            *final(dither) == *old(dither),
            *final(evolve) == *old(evolve),
            *final(callback) == *old(callback),
            finite_valued(fit_fn) ==> r is Ok,
            r matches Ok(o) ==> {
                &&& o.score.finite()
                &&& fit_fn.gives(&o.candidate, o.score)
                &&& o.candidate.len() == self.dims
                &&& kept_from(fit_fn, x_in, self.dims, o.score)
                &&& self.lambda <= o.evaluations <= total_fns + self.lambda
                &&& o.evaluations == self.lambda || o.evaluations < total_fns + self.lambda
                &&& threshold(self.restart_on_stale) == 0 ==> o.evaluations >= total_fns
                &&& threshold(self.polish_on_stale) == 0 ==> o.evaluations == self.lambda * (
                o.reports.len() + 1)
                &&& threshold(self.polish_on_stale) == 0 ==> forall|k: int|
                    0 <= k < o.reports.len() ==> (#[trigger] o.reports[k]).remaining == left_of(
                        total_fns as int,
                        self.lambda * (k + 2),
                    )
                &&& never_fall(o.reports@)
                &&& told(*old(callback), o.reports@)
                &&& o.reports.len() > 0 ==> is_evolved(self.f, seed, *old(dither), *old(evolve))
                &&& forall|k: int|
                    0 <= k < o.reports.len() ==> (#[trigger] o.reports[k]).remaining <= total_fns
                        && (floor matches Some(f) ==> f.rank() <= o.reports[k].best.rank())
                &&& o.reports.len() > 0 ==> o.reports@.last().best.rank() <= over_floor(
                    floor,
                    o.score,
                ).rank() && (o.evaluations >= total_fns || o.reports@.last().remaining >= total_fns
                    - o.evaluations)
            },
            r matches Err(e) ==> e == PassError::NonFiniteBest,
    {
        let mut rng: StdRng = seeded(seed);
        let mut pop: Vec<Vec<T>> = self.first_population(&mut rng, sample);
        match x_in {
            Some(x) => {
                recentre(&mut pop, x, shift);
            },
            None => {},
        }
        let mut fits: Vec<Score> = Vec::with_capacity(self.lambda);
        let mut i: usize = 0;
        while i < pop.len()
            invariant
                i <= pop.len(),
                fits.len() == i,
                forall|k: int| 0 <= k < i ==> fit_fn.gives(&pop[k], #[trigger] fits[k]),
            decreases pop.len() - i,
        {
            fits.push(fit_fn.score(&pop[i]));
            i += 1;
        }
        let ghost start: Vec<T> = pop[0];
        let ghost start_score: Score = fits[0];
        proof {
            lemma_top_dominates(fits@, 0);
            if x_in is Some && x_in->0.len() == self.dims {
                assert(start@ =~= x_in->0@);
            }
        }
        let mut pass: Pass<T> = Pass::begin(self, total_fns, pop, fits);
        pass.floor = floor;
        loop
            invariant
                pass.wf(),
                pass.phase == Phase::Idle,
                pass.floor == floor,
                told(*callback, pass.reports@),
                pass.reports.len() > 0 ==> is_evolved(self.f, seed, *dither, *evolve),
                finite_valued(fit_fn) ==> all_finite(pass.fits@),
                scored_by(fit_fn, pass.pop@, pass.fits@),
                fit_fn.gives(&start, start_score),
                x_in is Some && x_in->0.len() == self.dims ==> start@ == x_in->0@,
                start_score.rank() <= top(pass.fits@).rank(),
                self.lambda >= 2 || total_fns <= 1,
                pass.dims == self.dims,
                pass.lambda == self.lambda,
                pass.total == total_fns,
                pass.restart_after == threshold(self.restart_on_stale),
                pass.polish_after == threshold(self.polish_on_stale),
                *sample == *old(sample),
                *evolve == *old(evolve),
                *callback == *old(callback),
                forall|d: &D, g: &mut StdRng| call_requires(*sample, (d, g)),
                forall|a: T, b: T| call_requires(*shift, (a, b)),
                *dither == *old(dither),
                forall|range: (u32, u32), g: &mut StdRng| call_requires(*dither, (range, g)),
                forall|p: &Pass<T>, f: R, s: u64, b: usize|
                    p.wf() && p.phase == (Phase::AwaitTrials { best: b }) ==> call_requires(
                        *evolve,
                        (p, f, s, b),
                    ),
                forall|p: &Pass<T>, f: R, s: u64, b: usize, out: Vec<Trial<T>>|
                    p.wf() && p.phase == (Phase::AwaitTrials { best: b }) && call_ensures(
                        *evolve,
                        (p, f, s, b),
                        out,
                    ) ==> trials_fit(p, b, out@) && trials_scored(fit_fn, out@),
                forall|s: Score, n: usize| call_requires(*callback, (s, n)),
            decreases
                    pass.total + pass.lambda - pass.fns,
                    (if pass.polish_after > 0 && pass.stale_len == pass.polish_after {
                        1int
                    } else {
                        0int
                    }),
        {
            let step: Step = pass.next();
            match step {
                Step::Done => {
                    proof {
                        lemma_best_exists(pass.fits@);
                        if finite_valued(fit_fn) {
                            lemma_top_of_finite(pass.fits@);
                        }
                        assert(fit_fn.gives(&start, start_score));
                    }
                    return pass.finish();
                },
                Step::Restart => {
                    proof {
                        lemma_best_exists(pass.fits@);
                        if finite_valued(fit_fn) {
                            lemma_top_of_finite(pass.fits@);
                        }
                        assert(fit_fn.gives(&start, start_score));
                    }
                    return pass.finish();
                },
                Step::Polish { best } => {
                    let (fresh, scores) = self.resample(fit_fn, &pass, best, &mut rng, sample, shift);
                    pass.polished(fresh, scores);
                },
                Step::Evolve { best } => {
                    let f_lr: R = dither(self.f, &mut rng);
                    let ghost waiting = pass;
                    let trials: Vec<Trial<T>> = evolve(&pass, f_lr, seed, best);
                    proof {
                        assert(call_ensures(*evolve, (&waiting, f_lr, seed, best), trials));
                        assert(is_evolved(self.f, seed, *dither, *evolve));
                    }
                    let report = pass.commit(trials);
                    callback(report.best, report.remaining);
                },
            }
        }
    }

    /// Runs the engine on a budget of `total_fns` evaluations: one pass after
    /// the other, each on what is left of the budget and on a seed of its
    /// own, until the budget is spent. The closures are those of
    /// [`DePlus::run_pass`]; `origin` is the zero of the coordinates. A
    /// population of one candidate cannot run a generation, so it must have
    /// no budget for one.
    ///
    /// With no budget there is nothing to return, which is an error, and so
    /// is a pass that ends on a best score that is not finite; with budget,
    /// that cannot happen where the objective gives finite scores only. The
    /// run that is returned holds the best score over all passes, which is
    /// finite, and the candidate that the objective gave it to. The best is
    /// not below the score of the warm start. The evaluations are no fewer
    /// than the budget and stay below the budget and one population; where a
    /// pass is neither polished nor given up they are one population for the
    /// first scoring and one for every report. The reports of all passes are
    /// kept: over the whole run the best they tell never falls and the
    /// evaluations left never rise, and the best of the run is not below the
    /// last of them.
    pub fn fit<T, R, F, S, A, Dth, G, C>(
        &self,
        fit_fn: &F,
        total_fns: usize,
        seed: u64,
        x_in: Option<&Vec<T>>,
        origin: T,
        sample: S,
        shift: A,
        dither: Dth,
        evolve: G,
        callback: C,
    ) -> (r: Result<Campaign<T>, PassError>)
        where
            T: Copy,
            R: Copy,
            F: Fitness<Data = Vec<T>>,
            S: FnMut(&D, &mut StdRng) -> T,
            A: Fn(T, T) -> T,
            Dth: FnMut((u32, u32), &mut StdRng) -> R,
            G: FnMut(&Pass<T>, R, u64, usize) -> Vec<Trial<T>>,
            C: FnMut(Score, usize) -> (),
        requires
            self.lambda > 0,
            self.lambda >= 2 || total_fns <= 1,
            total_fns + self.lambda <= usize::MAX,
            forall|d: &D, g: &mut StdRng| call_requires(sample, (d, g)),
            forall|a: T, b: T| call_requires(shift, (a, b)),
            forall|range: (u32, u32), g: &mut StdRng| call_requires(dither, (range, g)),
            forall|p: &Pass<T>, f: R, s: u64, b: usize|
                p.wf() && p.phase == (Phase::AwaitTrials { best: b }) ==> call_requires(
                    evolve,
                    (p, f, s, b),
                ),
            forall|p: &Pass<T>, f: R, s: u64, b: usize, out: Vec<Trial<T>>|
                p.wf() && p.phase == (Phase::AwaitTrials { best: b }) && call_ensures(
                    evolve,
                    (p, f, s, b),
                    out,
                ) ==> trials_fit(p, b, out@) && trials_scored(fit_fn, out@),
            forall|s: Score, n: usize| call_requires(callback, (s, n)),
        ensures
            total_fns == 0 ==> r == Err::<Campaign<T>, PassError>(PassError::NoBudget),
            total_fns > 0 && finite_valued(fit_fn) ==> r is Ok,
            r matches Ok(run) ==> {
                &&& run.wf()
                &&& run.seed == seed
                &&& run.lambda == self.lambda
                &&& run.total == total_fns
                &&& total_fns <= run.spent < total_fns + self.lambda
                &&& threshold(self.polish_on_stale) == 0 && threshold(self.restart_on_stale) == 0
                    ==> run.spent == self.lambda * (run.reports.len() + 1) && forall|k: int|
                    0 <= k < run.reports.len() ==> (#[trigger] run.reports[k]).remaining
                        == left_of(total_fns as int, self.lambda * (k + 2))
                &&& run.best_fit.finite()
                &&& run.best_cand.len() == self.dims
                &&& fit_fn.gives(&run.best_cand, run.best_fit)
                &&& kept_from(fit_fn, x_in, self.dims, run.best_fit)
                &&& never_fall(run.reports@)
                &&& told(callback, run.reports@)
                &&& run.reports.len() > 0 ==> exists|pass_seed: u64|
                    #[trigger] is_evolved(self.f, pass_seed, dither, evolve)
                &&& run.reports.len() > 0 ==> run.reports@.last().best.rank()
                    <= run.best_fit.rank()
            },
            r matches Err(e) ==> (e == PassError::NoBudget <==> total_fns == 0) && (e
                == PassError::NonFiniteBest <==> total_fns > 0),
    {
        if total_fns == 0 {
            return Err(PassError::NoBudget);
        }
        let mut sample = sample;
        let mut draw_rate = dither;
        let mut evolve_all = evolve;
        let mut tell = callback;
        let ghost sample0 = sample;
        let ghost dither0 = draw_rate;
        let ghost evolve0 = evolve_all;
        let ghost callback0 = tell;
        let ghost plain: bool = threshold(self.polish_on_stale) == 0 && threshold(
            self.restart_on_stale,
        ) == 0;
        let mut run: Campaign<T> = Campaign::begin(self, total_fns, seed, filled(origin, self.dims));
        loop
            invariant
                self.lambda > 0,
                self.lambda >= 2 || total_fns <= 1,
                total_fns > 0,
                run.wf(),
                run.seed == seed,
                run.lambda == self.lambda,
                run.total == total_fns,
                plain == (threshold(self.polish_on_stale) == 0 && threshold(self.restart_on_stale)
                    == 0),
                plain ==> run.spent == 0 || (run.spent >= total_fns && run.spent == self.lambda * (
                run.reports.len() + 1) && forall|k: int|
                    0 <= k < run.reports.len() ==> (#[trigger] run.reports[k]).remaining
                        == left_of(total_fns as int, self.lambda * (k + 2))),
                run.spent > 0 ==> run.best_cand.len() == self.dims && fit_fn.gives(
                    &run.best_cand,
                    run.best_fit,
                ),
                run.spent > 0 ==> kept_from(fit_fn, x_in, self.dims, run.best_fit),
                told(tell, run.reports@),
                run.reports.len() > 0 ==> exists|pass_seed: u64|
                    #[trigger] is_evolved(self.f, pass_seed, dither0, evolve0),
                sample == sample0,
                evolve_all == evolve0,
                evolve0 == evolve,
                tell == callback0,
                callback0 == callback,
                forall|d: &D, g: &mut StdRng| call_requires(sample, (d, g)),
                forall|a: T, b: T| call_requires(shift, (a, b)),
                draw_rate == dither0,
                dither0 == dither,
                forall|range: (u32, u32), g: &mut StdRng| call_requires(draw_rate, (range, g)),
                forall|p: &Pass<T>, f: R, s: u64, b: usize|
                    p.wf() && p.phase == (Phase::AwaitTrials { best: b }) ==> call_requires(
                        evolve_all,
                        (p, f, s, b),
                    ),
                forall|p: &Pass<T>, f: R, s: u64, b: usize, out: Vec<Trial<T>>|
                    p.wf() && p.phase == (Phase::AwaitTrials { best: b }) && call_ensures(
                        evolve_all,
                        (p, f, s, b),
                        out,
                    ) ==> trials_fit(p, b, out@) && trials_scored(fit_fn, out@),
                forall|s: Score, n: usize| call_requires(tell, (s, n)),
            decreases run.total + run.lambda - run.spent,
        {
            let order: PassOrder = match run.next_pass() {
                Some(order) => order,
                None => {
                    return Ok(run);
                },
            };
            let outcome: Outcome<T> = match self.run_pass(
                fit_fn,
                order.budget,
                order.seed,
                x_in,
                order.floor,
                &mut sample,
                &shift,
                &mut draw_rate,
                &mut evolve_all,
                &mut tell,
            ) {
                Ok(outcome) => outcome,
                Err(e) => {
                    return Err(e);
                },
            };
            proof {
                assert(run.takes(outcome));
            }
            run.absorb(outcome);
            proof {
                if x_in is Some && x_in->0.len() == self.dims {
                    lemma_warm_start_rises(fit_fn, x_in->0@, outcome.score, run.best_fit);
                }
                if plain {
                    assert(run.reports@ =~= outcome.reports@);
                }
            }
        }
    }
}

} // verus!
