//! The engine: a fixed generational loop over the four strategies.
//!
//! Every generation breeds as many children as the population has members.
//! A child is a crossover of parents picked by the selector, mutated at some
//! positions. With elitism the best parent is carried over with its score, so
//! that the best score of the population never falls.
//!
//! What is arithmetic comes in as closures: `count` draws at how many
//! positions a child is mutated, and `breed_all` makes the children of a
//! whole generation and their scores, which is the work that can be spread
//! over threads.

use crate::ga::{Crossover, Genome, Mutator, Selector};
use crate::rank::{
    best_index, best_of, is_best, lemma_best_exists, lemma_best_unique,
    lemma_top_dominates, top, worst_index, worst_of,
};
use crate::rng::{derived_seed, distinct_indices, seeded, stream_of, uniform_u64, worker_rng};
use crate::score::Score;
use crate::rank::all_finite;
use crate::{
    all_scored, finite_valued, lemma_never_fall_push, never_fall, not_below_start, told,
    was_given, Fitness, Report,
};
use core::marker::PhantomData;
use rand::rngs::StdRng;
use vstd::prelude::*;

verus! {

/// The settings of the engine and its four strategies.
#[derive(Debug)]
pub struct FastGA<G, M, CO, S, E> {
    /// Population size.
    pub lambda: usize,
    /// Whether to ensure the best candidates persist
    pub elitism: bool,
    /// The largest share of a genome that one mutation may touch, as a
    /// binary32 bit pattern, which the engine hands to the draw of the number
    /// of positions to mutate.
    pub max_mutate: u32,
    /// Makes genomes.
    pub genome: G,
    /// Mutates children.
    pub mutator: M,
    /// Crosses parents.
    pub cross_over: CO,
    /// Picks parents.
    pub selector: S,
    /// Marks what a genome is.
    pub encoded: PhantomData<E>,
}

/// What the engine refuses.
#[derive(Clone, Copy, Debug, PartialEq, Eq, Structural)]
pub enum GaError {
    /// A child has fewer genes than are to be mutated.
    GenomeTooSmall,
    /// The best score of the population is not finite.
    NonFiniteBest,
}

/// The positions `idxs` are `count` distinct positions of a genome of `size`
/// genes.
pub open spec fn distinct_sites(idxs: Seq<usize>, count: int, size: int) -> bool {
    &&& idxs.len() == count
    &&& forall|k: int| 0 <= k < idxs.len() ==> idxs[k] < size
    &&& forall|j: int, k: int| 0 <= j < k < idxs.len() ==> idxs[j] != idxs[k]
}

/// `count` never draws more positions than the genome it is asked about has
/// genes.
pub open spec fn count_fits<Cn: Fn(u32, usize, &mut StdRng) -> usize>(count: Cn) -> bool {
    forall|share: u32, size: usize, g: &mut StdRng, drawn: usize|
        call_ensures(count, (share, size, g), drawn) ==> drawn <= size
}

/// `count` can draw, for the largest share `share`, more positions than some
/// genome has genes.
pub open spec fn can_overdraw<Cn: Fn(u32, usize, &mut StdRng) -> usize>(count: Cn, share: u32) -> bool {
    exists|size: usize, g: &mut StdRng, drawn: usize|
        call_ensures(count, (share, size, g), drawn) && drawn > size
}

/// All positions of a genome of `size` genes, in their order. Where every
/// position of a very large genome is to be mutated there is nothing to
/// draw, and the positions are listed.
pub fn every_position(size: usize) -> (idxs: Vec<usize>)
    ensures
        idxs.len() == size,
        forall|k: int| 0 <= k < size ==> idxs[k] == k,
        distinct_sites(idxs@, size as int, size as int),
{
    let mut idxs: Vec<usize> = Vec::new();
    let mut k: usize = 0;
    while k < size
        invariant
            k <= size,
            idxs.len() == k,
            forall|j: int| 0 <= j < k ==> idxs[j] == j,
        decreases size - k,
    {
        idxs.push(k);
        k += 1;
    }
    idxs
}

/// Every one of `chosen` is a member of `parents`.
pub open spec fn drawn_from<E>(chosen: Seq<&E>, parents: Seq<E>) -> bool {
    forall|k: int|
        0 <= k < chosen.len() ==> exists|i: int|
            0 <= i < parents.len() && *(#[trigger] chosen[k]) == #[trigger] parents[i]
}

impl<
    E: Send + Sync,
    G: Genome<Encoded = E>,
    M: Mutator<Encoded = E>,
    CO: Crossover<Encoded = E>,
    S: Selector,
> FastGA<G, M, CO, S, E> {
    /// An engine with the given settings and strategies.
    pub fn new(
        lambda: usize,
        elitism: bool,
        max_mutate: u32,
        genome: G,
        mutator: M,
        cross_over: CO,
        selector: S,
    ) -> (ga: Self)
        ensures
            ga.lambda == lambda,
            ga.elitism == elitism,
            ga.max_mutate == max_mutate,
            ga.genome == genome,
            ga.mutator == mutator,
            ga.cross_over == cross_over,
            ga.selector == selector,
    {
        FastGA {
            lambda,
            elitism,
            max_mutate,
            genome,
            mutator,
            cross_over,
            selector,
            encoded: PhantomData,
        }
    }

    /// The first population: `lambda` genomes made by the genome strategy,
    /// one after the other on `rng`, the first of them replaced by `x_in` if
    /// that is given.
    pub fn found(&self, rng: &mut StdRng, x_in: Option<E>) -> (parents: Vec<E>)
        requires
            x_in is Some ==> self.lambda > 0,
        ensures
            parents.len() == self.lambda,
            x_in matches Some(x) ==> parents[0] == x,
            forall|i: int|
                0 <= i < parents.len() && (i > 0 || x_in is None) ==> self.genome.made(
                    &#[trigger] parents[i],
                ),
    {
        let mut parents: Vec<E> = Vec::with_capacity(self.lambda);
        let mut i: usize = 0;
        while i < self.lambda
            invariant
                i <= self.lambda,
                parents.len() == i,
                forall|k: int| 0 <= k < i ==> self.genome.made(&#[trigger] parents[k]),
            decreases self.lambda - i,
        {
            parents.push(self.genome.new(rng));
            i += 1;
        }
        match x_in {
            Some(x) => {
                parents.set(0, x);
            },
            None => {},
        }
        parents
    }

    /// The seed that the streams of a generation's children derive from: one
    /// draw on `rng`, below 2 to the 63.
    pub fn generation_seed(rng: &mut StdRng) -> (seed: u64)
        ensures
            seed < 0x8000_0000_0000_0000,
    {
        uniform_u64(rng, 0, 0x8000_0000_0000_0000)
    }

    /// The private random stream of child `i` of the generation seeded
    /// `seed`: the generator of the generation's seed offset by `i`, fresh,
    /// with nothing drawn from it yet.
    pub fn child_rng(seed: u64, i: usize) -> (rng: StdRng)
        ensures
            rng == stream_of(derived_seed(seed, 0, i)),
    {
        worker_rng(seed, 0, i)
    }

    /// `child` can be bred of `parents`: it is an offspring of as many of
    /// them as the crossover asks for.
    pub open spec fn is_bred(&self, parents: Seq<E>, child: &E) -> bool {
        exists|chosen: Seq<&E>|
            self.cross_over.asks_for(chosen.len() as int) && drawn_from(chosen, parents)
                && #[trigger] self.cross_over.offspring(chosen, child)
    }

    /// `after` can be a mutation of `before` at `count` distinct positions.
    pub open spec fn is_mutation(&self, count: int, before: &E, after: &E) -> bool {
        exists|size: usize, idxs: Seq<usize>|
            #![trigger self.genome.sized(before, size), self.mutator.mutation(idxs, before, after)]
            self.genome.sized(before, size) && distinct_sites(idxs, count, size as int)
                && self.mutator.mutation(idxs, before, after)
    }

    /// `child` can be a child of `parents`: something bred of them, mutated
    /// at some number of distinct positions.
    pub open spec fn is_child(&self, parents: Seq<E>, child: &E) -> bool {
        exists|bred: E, n: int|
            self.is_bred(parents, &bred) && #[trigger] self.is_mutation(n, &bred, child)
    }

    /// Breeds a child: picks as many parents as the crossover asks for, each
    /// by one call of the selector on the scores, and crosses them. The
    /// population must not be empty, and whatever the selector picks must be
    /// something the crossover can cross.
    pub fn breed(&self, parents: &Vec<E>, fitness: &Vec<Score>, rng: &mut StdRng) -> (child: E)
        requires
            parents.len() == fitness.len(),
            parents.len() > 0,
            self.selector.usable(),
            forall|chosen: Seq<&E>|
                self.cross_over.asks_for(chosen.len() as int) && drawn_from(chosen, parents@)
                    ==> #[trigger] self.cross_over.crossable(chosen),
        ensures
            self.is_bred(parents@, &child),
    {
        let needed: usize = self.cross_over.parents_to_select();
        let mut chosen: Vec<&E> = Vec::with_capacity(needed);
        let mut k: usize = 0;
        while k < needed
            invariant
                k <= needed,
                chosen.len() == k,
                parents.len() == fitness.len(),
                parents.len() > 0,
                self.selector.usable(),
                drawn_from(chosen@, parents@),
            decreases needed - k,
        {
            let i: usize = self.selector.select(fitness, rng);
            let ghost before = chosen@;
            chosen.push(&parents[i]);
            proof {
                assert forall|j: int| 0 <= j < chosen.len() implies exists|h: int|
                    0 <= h < parents.len() && *(#[trigger] chosen@[j]) == #[trigger] parents@[h] by {
                    if j < k {
                        assert(chosen@[j] == before[j]);
                    } else {
                        assert(*chosen@[j] == parents@[i as int]);
                    }
                }
            }
            k += 1;
        }
        self.cross_over.cross(&chosen, rng)
    }

    /// Mutates a child of `size` genes at `count` positions, drawn uniformly
    /// among its positions and all different; a genome of more than 2 to the
    /// 32 genes that is to be mutated at every position is mutated at all of
    /// them in their order. That can be done exactly when
    /// the child has that many genes: a child with fewer is refused and left
    /// as it is. The mutator must be able to mutate the child at any such
    /// positions.
    pub fn mutate_within(&self, child: &mut E, size: usize, count: usize, rng: &mut StdRng) -> (r:
        Result<(), GaError>)
        requires
            forall|idxs: Seq<usize>|
                distinct_sites(idxs, count as int, size as int) ==> #[trigger] self.mutator.mutable_at(
                    idxs,
                    old(child),
                ),
        ensures
            r is Ok <==> count <= size,
            r is Ok ==> exists|idxs: Seq<usize>|
                distinct_sites(idxs, count as int, size as int) && #[trigger] self.mutator.mutation(
                    idxs,
                    old(child),
                    final(child),
                ),
            r matches Err(e) ==> e == GaError::GenomeTooSmall && *final(child) == *old(child),
    {
        if count > size {
            return Err(GaError::GenomeTooSmall);
        }
        let idxs: Vec<usize> = if count == size && size > 0xFFFF_FFFF {
            every_position(size)
        } else {
            distinct_indices(rng, size, count)
        };
        assert(distinct_sites(idxs@, count as int, size as int));
        self.mutator.mutate(&idxs, child, rng);
        Ok(())
    }

    /// Mutates a child at `count` positions, drawn uniformly among those the
    /// genome strategy says it has, and all different. A child with fewer
    /// positions than that is refused and left as it is. The mutator must be
    /// able to mutate the child at any such positions.
    pub fn mutate(&self, child: &mut E, count: usize, rng: &mut StdRng) -> (r: Result<(), GaError>)
        requires
            forall|size: usize, idxs: Seq<usize>|
                #![trigger self.genome.sized(old(child), size), self.mutator.mutable_at(idxs, old(child))]
                self.genome.sized(old(child), size) && distinct_sites(idxs, count as int, size as int)
                    ==> self.mutator.mutable_at(idxs, old(child)),
        ensures
            r is Ok ==> self.is_mutation(count as int, old(child), final(child)),
            r matches Err(e) ==> e == GaError::GenomeTooSmall && *final(child) == *old(child)
                && exists|size: usize| size < count && #[trigger] self.genome.sized(old(child), size),
    {
        let size: usize = self.genome.size(child);
        self.mutate_within(child, size, count, rng)
    }
}

impl<
    E: Send + Sync,
    G: Genome<Encoded = E>,
    M: Mutator<Encoded = E>,
    CO: Crossover<Encoded = E>,
    S: Selector,
> FastGA<G, M, CO, S, E> {
    /// Makes child `i` of a generation of `run`, on the child's own random
    /// stream, which is seeded by the generation's `seed` and `i`: the child
    /// is bred of the population, `count` draws at how many positions a
    /// child of its size is mutated, given the configured largest share, and
    /// it is mutated at that many. A child with fewer positions than that is
    /// an error, which cannot happen where `count` never draws more positions
    /// than the size it is given.
    pub fn child<Cn>(&self, run: &GaRun<E>, seed: u64, i: usize, count: &Cn) -> (r: Result<
        E,
        GaError,
    >)
        where Cn: Fn(u32, usize, &mut StdRng) -> usize
        requires
            run.wf(),
            self.selector.usable(),
            forall|chosen: Seq<&E>|
                self.cross_over.asks_for(chosen.len() as int) && drawn_from(chosen, run.parents@)
                    ==> #[trigger] self.cross_over.crossable(chosen),
            forall|c: &E, size: usize, idxs: Seq<usize>|
                #![trigger self.genome.sized(c, size), self.mutator.mutable_at(idxs, c)]
                self.genome.sized(c, size) && distinct_sites(idxs, idxs.len() as int, size as int)
                    ==> self.mutator.mutable_at(idxs, c),
            forall|m: u32, n: usize, g: &mut StdRng| call_requires(*count, (m, n, g)),
        ensures
            count_fits(*count) ==> r is Ok,
            r matches Ok(c) ==> self.is_child(run.parents@, &c),
            r matches Err(e) ==> e == GaError::GenomeTooSmall && can_overdraw(
                *count,
                self.max_mutate,
            ),
    {
        let mut local_rng: StdRng = Self::child_rng(seed, i);
        let mut child: E = self.breed(&run.parents, &run.fitness, &mut local_rng);
        let ghost bred = child;
        let num_genes: usize = self.genome.size(&child);
        let to_mutate: usize = count(self.max_mutate, num_genes, &mut local_rng);
        match self.mutate_within(&mut child, num_genes, to_mutate, &mut local_rng) {
            Ok(()) => {
                assert(self.is_bred(run.parents@, &bred));
                assert(self.is_mutation(to_mutate as int, &bred, &child));
                let r: Result<E, GaError> = Ok(child);
                assert(r matches Ok(c) && self.is_mutation(to_mutate as int, &bred, &c));
                r
            },
            Err(e) => {
                assert(can_overdraw(*count, self.max_mutate));
                Err(e)
            },
        }
    }

    /// Makes the children of a whole generation and scores them, one child
    /// after the other. Every child is what [`FastGA::child`] makes in its
    /// place, so the children are the same in whatever order, and on
    /// whatever threads, they are made. The first child that cannot be
    /// mutated as often as drawn is an error, which cannot happen where
    /// `count` never draws more positions than the size it is given.
    pub fn brood<F, Cn>(&self, fit_fn: &F, run: &GaRun<E>, seed: u64, count: &Cn) -> (r: Result<
        (Vec<E>, Vec<Score>),
        GaError,
    >)
        where F: Fitness<Data = E>, Cn: Fn(u32, usize, &mut StdRng) -> usize
        requires
            run.wf(),
            self.selector.usable(),
            forall|chosen: Seq<&E>|
                self.cross_over.asks_for(chosen.len() as int) && drawn_from(chosen, run.parents@)
                    ==> #[trigger] self.cross_over.crossable(chosen),
            forall|c: &E, size: usize, idxs: Seq<usize>|
                #![trigger self.genome.sized(c, size), self.mutator.mutable_at(idxs, c)]
                self.genome.sized(c, size) && distinct_sites(idxs, idxs.len() as int, size as int)
                    ==> self.mutator.mutable_at(idxs, c),
            forall|m: u32, n: usize, g: &mut StdRng| call_requires(*count, (m, n, g)),
        ensures
            count_fits(*count) ==> r is Ok,
            r matches Ok(made) ==> {
                &&& made.0.len() == run.lambda
                &&& made.1.len() == run.lambda
                &&& forall|i: int|
                    0 <= i < run.lambda ==> self.is_child(run.parents@, &#[trigger] made.0[i])
                &&& forall|i: int|
                    0 <= i < run.lambda ==> fit_fn.gives(&made.0[i], #[trigger] made.1[i])
            },
            r matches Err(e) ==> e == GaError::GenomeTooSmall && can_overdraw(
                *count,
                self.max_mutate,
            ),
    {
        let mut children: Vec<E> = Vec::with_capacity(run.lambda);
        let mut i: usize = 0;
        while i < run.lambda
            invariant
                i <= run.lambda,
                children.len() == i,
                run.wf(),
                self.selector.usable(),
                forall|chosen: Seq<&E>|
                    self.cross_over.asks_for(chosen.len() as int) && drawn_from(
                        chosen,
                        run.parents@,
                    ) ==> #[trigger] self.cross_over.crossable(chosen),
                forall|c: &E, size: usize, idxs: Seq<usize>|
                #![trigger self.genome.sized(c, size), self.mutator.mutable_at(idxs, c)]
                self.genome.sized(c, size) && distinct_sites(idxs, idxs.len() as int, size as int)
                    ==> self.mutator.mutable_at(idxs, c),
                forall|m: u32, n: usize, g: &mut StdRng| call_requires(*count, (m, n, g)),
                forall|k: int|
                    0 <= k < i ==> self.is_child(run.parents@, &#[trigger] children[k]),
            decreases run.lambda - i,
        {
            match self.child(run, seed, i, count) {
                Ok(child) => {
                    children.push(child);
                },
                Err(e) => {
                    return Err(e);
                },
            }
            i += 1;
        }
        let mut scores: Vec<Score> = Vec::with_capacity(run.lambda);
        let mut k: usize = 0;
        while k < children.len()
            invariant
                k <= children.len(),
                scores.len() == k,
                forall|h: int| 0 <= h < k ==> fit_fn.gives(&children[h], #[trigger] scores[h]),
            decreases children.len() - k,
        {
            scores.push(fit_fn.score(&children[k]));
            k += 1;
        }
        Ok((children, scores))
    }

    /// Runs the engine on a budget of `total_fns` evaluations, all its draws
    /// coming from `seed`. The first population is made by the genome
    /// strategy, with the warm start `x_in` in the first place if there is
    /// one, and scored. Then, as long as budget is left, `callback` is told
    /// the best score and the evaluations left, a seed is drawn for the
    /// generation, and `breed_all` makes the children and their scores from
    /// the run and that seed, which is the work that can be spread over
    /// threads.
    ///
    /// The run that is returned holds the last population, each member with
    /// the score the objective gave it; no child is taken on a score that is
    /// not finite. Its evaluations are one population for the first scoring
    /// and one for every report, no fewer than the budget, and below the
    /// budget and one population unless the first scoring alone went beyond.
    /// Every report tells what was left of the budget when it was made, and
    /// as best a score that the objective gave: the best of the population
    /// that the generation started from. The
    /// warm start, if there is one, is the first member scored: the first
    /// report is not below its score, and with elitism neither is the best of
    /// the last population, nor do the reports ever fall.
    pub fn fit<F, B, C>(
        &self,
        fit_fn: &F,
        total_fns: usize,
        seed: u64,
        x_in: Option<E>,
        breed_all: B,
        callback: C,
    ) -> (run: GaRun<E>)
        where
            F: Fitness<Data = E>,
            B: FnMut(&GaRun<E>, u64) -> (Vec<E>, Vec<Score>),
            C: FnMut(Score, usize) -> (),
        requires
            self.lambda > 0,
            total_fns + self.lambda <= usize::MAX,
            forall|r: &GaRun<E>, s: u64|
                r.wf() && r.breeding is Some && s < 0x8000_0000_0000_0000 ==> call_requires(
                    breed_all,
                    (r, s),
                ),
            forall|r: &GaRun<E>, s: u64, out: (Vec<E>, Vec<Score>)|
                r.wf() && r.breeding is Some && call_ensures(breed_all, (r, s), out) ==> out.0.len()
                    == r.lambda && all_scored(fit_fn, out.0@, out.1@),
            forall|s: Score, n: usize| call_requires(callback, (s, n)),
        ensures
            run.wf(),
            run.breeding is None,
            run.lambda == self.lambda,
            run.elitism == self.elitism,
            run.total == total_fns,
            total_fns <= run.fns <= total_fns + self.lambda,
            run.fns == self.lambda || run.fns < total_fns + self.lambda,
            run.fns == self.lambda * (run.reports.len() + 1),
            forall|k: int|
                0 <= k < run.reports.len() ==> (#[trigger] run.reports[k]).remaining == total_fns
                    - self.lambda * (k + 1),
            forall|k: int|
                0 <= k < run.reports.len() ==> was_given(fit_fn, (#[trigger] run.reports[k]).best),
            told(callback, run.reports@),
            run.reports.len() > 0 ==> bred_by(breed_all, run),
            all_scored(fit_fn, run.parents@, run.fitness@),
            finite_valued(fit_fn) ==> all_finite(run.fitness@),
            run.reports.len() == 0 ==> (x_in matches Some(x) ==> run.parents[0] == x),
            run.reports.len() == 0 ==> forall|i: int|
                0 <= i < run.parents.len() && (i > 0 || x_in is None) ==> self.genome.made(
                    &#[trigger] run.parents[i],
                ),
            run.reports.len() > 0 ==> not_below_start(fit_fn, x_in, run.reports[0].best),
            self.elitism ==> not_below_start(fit_fn, x_in, top(run.fitness@)),
            self.elitism ==> never_fall(run.reports@),
            self.elitism && run.reports.len() > 0 ==> run.reports@.last().best.rank() <= top(
                run.fitness@,
            ).rank(),
    {
        let mut breed_them = breed_all;
        let mut tell = callback;
        let ghost breed_all0 = breed_them;
        let ghost callback0 = tell;
        let mut rng: StdRng = seeded(seed);
        let parents: Vec<E> = self.found(&mut rng, x_in);
        let mut fitness: Vec<Score> = Vec::with_capacity(self.lambda);
        let mut i: usize = 0;
        while i < parents.len()
            invariant
                i <= parents.len(),
                fitness.len() == i,
                forall|k: int| 0 <= k < i ==> fit_fn.gives(&parents[k], #[trigger] fitness[k]),
            decreases parents.len() - i,
        {
            fitness.push(fit_fn.score(&parents[i]));
            i += 1;
        }
        let ghost first: E = parents[0];
        let ghost first_score: Score = fitness[0];
        proof {
            lemma_top_dominates(fitness@, 0);
        }
        let mut run: GaRun<E> = GaRun::begin(self, total_fns, parents, fitness);
        loop
            invariant
                run.wf(),
                run.breeding is None,
                all_scored(fit_fn, run.parents@, run.fitness@),
                forall|k: int|
                    0 <= k < run.reports.len() ==> was_given(
                        fit_fn,
                        (#[trigger] run.reports[k]).best,
                    ),
                told(tell, run.reports@),
                run.reports.len() > 0 ==> bred_by(breed_them, run),
                finite_valued(fit_fn) ==> all_finite(run.fitness@),
                fit_fn.gives(&first, first_score),
                x_in matches Some(x) ==> first == x,
                run.reports.len() == 0 ==> run.parents[0] == first && first_score.rank() <= top(
                    run.fitness@,
                ).rank(),
                run.reports.len() == 0 ==> forall|i: int|
                    0 <= i < run.parents.len() && (i > 0 || x_in is None) ==> self.genome.made(
                        &#[trigger] run.parents[i],
                    ),
                run.reports.len() > 0 ==> first_score.rank() <= run.reports[0].best.rank(),
                self.elitism ==> first_score.rank() <= top(run.fitness@).rank(),
                run.lambda == self.lambda,
                run.elitism == self.elitism,
                run.total == total_fns,
                breed_them == breed_all0,
                breed_all0 == breed_all,
                tell == callback0,
                callback0 == callback,
                forall|r: &GaRun<E>, s: u64|
                    r.wf() && r.breeding is Some && s < 0x8000_0000_0000_0000 ==> call_requires(
                        breed_them,
                        (r, s),
                    ),
                forall|r: &GaRun<E>, s: u64, out: (Vec<E>, Vec<Score>)|
                    r.wf() && r.breeding is Some && call_ensures(breed_them, (r, s), out)
                        ==> out.0.len() == r.lambda && all_scored(fit_fn, out.0@, out.1@),
                forall|s: Score, n: usize| call_requires(tell, (s, n)),
            decreases run.total + run.lambda - run.fns,
        {
            let report: Report = match run.next() {
                Some(report) => report,
                None => {
                    return run;
                },
            };
            proof {
                lemma_best_exists(run.fitness@);
                let b = best_of(run.fitness@);
                assert(fit_fn.gives(&run.parents@[b], run.fitness@[b]));
                assert(was_given(fit_fn, report.best));
            }
            tell(report.best, report.remaining);
            let new_seed: u64 = Self::generation_seed(&mut rng);
            let (children, scores) = breed_them(&run, new_seed);
            let ghost before = run;
            run.advance(children, scores);
            proof {
                assert(call_ensures(breed_them, (&before, new_seed), (children, scores)));
                assert(before.settles_into(children@, scores@, run.parents@, run.fitness@));
                assert(bred_by(breed_them, run));
                lemma_best_exists(before.fitness@);
                lemma_settled_scored(fit_fn, before, children@, scores@, run);
            }
        }
    }
}

/// The population of `run` is what its last generation left: `breed_all`
/// made children and scores for a run that waited for them, and they settled
/// into the population that `run` now has.
pub open spec fn bred_by<E, B: FnMut(&GaRun<E>, u64) -> (Vec<E>, Vec<Score>)>(
    breed_all: B,
    run: GaRun<E>,
) -> bool {
    exists|before: GaRun<E>, seed: u64, out: (Vec<E>, Vec<Score>)|
        {
            &&& before.wf()
            &&& before.breeding is Some
            &&& seed < 0x8000_0000_0000_0000
            &&& #[trigger] call_ensures(breed_all, (&before, seed), out)
            &&& before.settles_into(out.0@, out.1@, run.parents@, run.fitness@)
        }
}

/// After a generation the objective has still given every member its score,
/// where it had before and has given the children theirs; and scores that
/// were all finite still are.
pub proof fn lemma_settled_scored<E, F: Fitness<Data = E>>(
    fit_fn: &F,
    before: GaRun<E>,
    children: Seq<E>,
    scores: Seq<Score>,
    after: GaRun<E>,
)
    requires
        before.parents.len() == before.lambda,
        before.fitness.len() == before.lambda,
        before.lambda > 0,
        children.len() == before.lambda,
        all_scored(fit_fn, before.parents@, before.fitness@),
        all_scored(fit_fn, children, scores),
        0 <= best_of(before.fitness@) < before.lambda,
        !before.carries(scores) ==> after.parents@ == kept_members(
            before.parents@,
            children,
            scores,
        ) && after.fitness@ == kept_members(before.fitness@, scores, scores),
        before.carries(scores) ==> after.parents@ == survivors(
            kept_members(before.parents@, children, scores),
            kept_members(before.fitness@, scores, scores),
            before.parents[best_of(before.fitness@)],
            top(before.fitness@),
        ) && after.fitness@ == survivors(
            kept_members(before.fitness@, scores, scores),
            kept_members(before.fitness@, scores, scores),
            top(before.fitness@),
            top(before.fitness@),
        ),
    ensures
        all_scored(fit_fn, after.parents@, after.fitness@),
        all_finite(before.fitness@) ==> all_finite(after.fitness@),
{
    let m = kept_members(before.parents@, children, scores);
    let k = kept_members(before.fitness@, scores, scores);
    assert(all_scored(fit_fn, m, k)) by {
        assert forall|i: int| 0 <= i < m.len() implies fit_fn.gives(&m[i], #[trigger] k[i]) by {
            if scores[i].finite() {
                assert(fit_fn.gives(&children[i], scores[i]));
            } else {
                assert(fit_fn.gives(&before.parents@[i], before.fitness@[i]));
            }
        }
    }
    let b = best_of(before.fitness@);
    let elite = before.parents[b];
    let ef = top(before.fitness@);
    assert(fit_fn.gives(&before.parents@[b], before.fitness@[b]));
    if before.carries(scores) {
        let w = worst_of(k.push(ef));
        crate::rank::lemma_worst_exists(k.push(ef));
        assert forall|i: int| 0 <= i < after.parents@.len() implies fit_fn.gives(
            &after.parents@[i],
            #[trigger] after.fitness@[i],
        ) by {
            if i != w {
                assert(fit_fn.gives(&m[i], k[i]));
            }
        }
        if all_finite(before.fitness@) {
            assert forall|i: int| 0 <= i < after.fitness@.len() implies (
            #[trigger] after.fitness@[i]).finite() by {
                if i != w {
                    assert(k[i] == (if scores[i].finite() {
                        scores[i]
                    } else {
                        before.fitness@[i]
                    }));
                }
            }
        }
    } else {
        if all_finite(before.fitness@) {
            assert forall|i: int| 0 <= i < after.fitness@.len() implies (
            #[trigger] after.fitness@[i]).finite() by {
                assert(k[i] == (if scores[i].finite() {
                    scores[i]
                } else {
                    before.fitness@[i]
                }));
            }
        }
    }
}

/// What is left of a generation with the best parent carried over: the
/// children and the parent together are one more than the population holds, so
/// the member with the worst score leaves, and the carried parent, which
/// stood last, takes its place. `scores` are the children's scores and
/// `elite_fit` is the parent's.
pub open spec fn survivors<X>(members: Seq<X>, scores: Seq<Score>, elite: X, elite_fit: Score) -> Seq<
    X,
> {
    let worst = worst_of(scores.push(elite_fit));
    members.push(elite).update(worst, elite).drop_last()
}

/// The members that stay after a generation: in every place the child, if
/// its score is finite, and else the parent that stood there.
pub open spec fn kept_members<X>(parents: Seq<X>, children: Seq<X>, scores: Seq<Score>) -> Seq<X> {
    Seq::new(
        parents.len(),
        |i: int|
            if scores[i].finite() {
                children[i]
            } else {
                parents[i]
            },
    )
}

/// Takes the children of a generation into the places of their parents. A
/// child whose score is not finite is rejected: the parent in its place
/// stays, with its score. The best parent, at `best`, is handed back if its
/// place was taken.
pub fn settle<E>(
    parents: Vec<E>,
    fitness: Vec<Score>,
    children: Vec<E>,
    scores: Vec<Score>,
    best: usize,
) -> (r: (Vec<E>, Vec<Score>, Option<E>))
    requires
        fitness.len() == parents.len(),
        children.len() == parents.len(),
        scores.len() == parents.len(),
        best < parents.len(),
    ensures
        r.0@ == kept_members(parents@, children@, scores@),
        r.1@ == kept_members(fitness@, scores@, scores@),
        r.2 is Some <==> scores[best as int].finite(),
        r.2 matches Some(e) ==> e == parents[best as int],
{
    let ghost parents0 = parents@;
    let ghost children0 = children@;
    let ghost km = kept_members(parents@, children@, scores@);
    let ghost ks = kept_members(fitness@, scores@, scores@);
    let n: usize = scores.len();
    let mut parents = parents;
    let mut children = children;
    let mut back: Vec<E> = Vec::with_capacity(n);
    let mut elite: Option<E> = None;
    let mut i: usize = n;
    while i > 0
        invariant
            i <= n,
            n == parents0.len(),
            n == children0.len(),
            n == scores.len(),
            n == fitness.len(),
            best < n,
            parents@ == parents0.subrange(0, i as int),
            children@ == children0.subrange(0, i as int),
            km == kept_members(parents0, children0, scores@),
            back.len() == n - i,
            forall|k: int| 0 <= k < n - i ==> #[trigger] back[k] == km[n - 1 - k],
            best < i ==> elite is None,
            best >= i ==> (elite is Some <==> scores[best as int].finite()),
            elite matches Some(e) ==> e == parents0[best as int],
        decreases i,
    {
        i -= 1;
        let p: E = parents.pop().unwrap();
        let c: E = children.pop().unwrap();
        if scores[i].is_finite() {
            back.push(c);
            if i == best {
                elite = Some(p);
            }
        } else {
            back.push(p);
        }
    }
    let ghost back0 = back@;
    let mut members: Vec<E> = Vec::with_capacity(n);
    let mut kept: Vec<Score> = Vec::with_capacity(n);
    let mut j: usize = 0;
    while j < n
        invariant
            j <= n,
            n == scores.len(),
            n == fitness.len(),
            n == km.len(),
            back0.len() == n,
            back@ == back0.subrange(0, n - j),
            forall|k: int| 0 <= k < n ==> #[trigger] back0[k] == km[n - 1 - k],
            ks == kept_members(fitness@, scores@, scores@),
            members.len() == j,
            kept.len() == j,
            forall|k: int| 0 <= k < j ==> #[trigger] members[k] == km[k],
            forall|k: int| 0 <= k < j ==> #[trigger] kept[k] == ks[k],
        decreases n - j,
    {
        let member: E = back.pop().unwrap();
        assert(member == back0[n - 1 - j]);
        members.push(member);
        if scores[j].is_finite() {
            kept.push(scores[j]);
        } else {
            kept.push(fitness[j]);
        }
        j += 1;
    }
    assert(members@ =~= km);
    assert(kept@ =~= ks);
    (members, kept, elite)
}

/// The state of a run of the engine.
#[derive(Debug)]
pub struct GaRun<E> {
    /// Population size.
    pub lambda: usize,
    /// Whether the best parent is carried over.
    pub elitism: bool,
    /// The budget of evaluations.
    pub total: usize,
    /// The population.
    pub parents: Vec<E>,
    /// The score of each member.
    pub fitness: Vec<Score>,
    /// Evaluations made so far.
    pub fns: usize,
    /// While the run waits for the children of a generation: the position
    /// of the best parent.
    pub breeding: Option<usize>,
    /// What the run has reported so far, generation by generation.
    pub reports: Vec<Report>,
}

impl<E> GaRun<E> {
    /// The evaluations of the budget that are left.
    pub open spec fn remaining(&self) -> usize {
        if self.fns < self.total {
            (self.total - self.fns) as usize
        } else {
            0
        }
    }

    /// The population and its scores have the configured size, one
    /// population has been scored at the start and one for every generation
    /// since, and at most one generation ran past the budget. With elitism
    /// the reports never fall, nor is the population's best score below the
    /// last of them.
    pub open spec fn wf(&self) -> bool {
        &&& self.lambda > 0
        &&& self.elitism ==> never_fall(self.reports@)
        &&& self.elitism && self.reports.len() > 0 ==> self.reports@.last().best.rank() <= top(
            self.fitness@,
        ).rank() && self.reports@.last().remaining >= self.remaining()
        &&& self.parents.len() == self.lambda
        &&& self.fitness.len() == self.lambda
        &&& self.total + self.lambda <= usize::MAX
        &&& self.lambda <= self.fns <= self.total + self.lambda
        &&& self.fns == self.lambda || self.fns < self.total + self.lambda
        &&& self.fns == self.lambda * (self.generations() + 1)
        &&& forall|k: int|
            0 <= k < self.reports.len() ==> (#[trigger] self.reports[k]).remaining == self.total
                - self.lambda * (k + 1)
        &&& self.breeding is Some ==> self.reports.len() > 0 && self.reports@.last().best == top(
            self.fitness@,
        )
        &&& self.breeding matches Some(best) ==> self.fns < self.total && is_best(
            self.fitness@,
            best as int,
        )
    }

    /// Children with the given scores settle into the population given
    /// last: every child with a finite score takes the place of its parent,
    /// and the best parent is carried over if it is to be.
    pub open spec fn settles_into(
        &self,
        children: Seq<E>,
        scores: Seq<Score>,
        parents: Seq<E>,
        fitness: Seq<Score>,
    ) -> bool {
        if self.carries(scores) {
            parents == survivors(
                kept_members(self.parents@, children, scores),
                kept_members(self.fitness@, scores, scores),
                self.parents[best_of(self.fitness@)],
                top(self.fitness@),
            ) && fitness == survivors(
                kept_members(self.fitness@, scores, scores),
                kept_members(self.fitness@, scores, scores),
                top(self.fitness@),
                top(self.fitness@),
            )
        } else {
            parents == kept_members(self.parents@, children, scores) && fitness == kept_members(
                self.fitness@,
                scores,
                scores,
            )
        }
    }

    /// Whether the best parent is carried over a generation whose children
    /// have the given scores: with elitism, where the child in the best
    /// parent's place is taken.
    pub open spec fn carries(&self, scores: Seq<Score>) -> bool {
        self.elitism && scores[best_of(self.fitness@)].finite()
    }

    /// The generations that have run in full: one per report, but for a
    /// generation that is still being bred.
    pub open spec fn generations(&self) -> int {
        if self.breeding is Some {
            self.reports.len() - 1
        } else {
            self.reports.len() as int
        }
    }

    /// Starts a run on a first population that has been scored.
    pub fn begin<G, M, CO, S>(
        ga: &FastGA<G, M, CO, S, E>,
        total: usize,
        parents: Vec<E>,
        fitness: Vec<Score>,
    ) -> (run: GaRun<E>)
        requires
            ga.lambda > 0,
            parents.len() == ga.lambda,
            fitness.len() == ga.lambda,
            total + ga.lambda <= usize::MAX,
        ensures
            run.wf(),
            run.lambda == ga.lambda,
            run.elitism == ga.elitism,
            run.total == total,
            run.parents == parents,
            run.fitness == fitness,
            run.fns == ga.lambda,
            run.breeding is None,
            run.reports@ == Seq::<Report>::empty(),
    {
        assert(ga.lambda * 1 == ga.lambda) by (nonlinear_arith);
        GaRun {
            lambda: ga.lambda,
            elitism: ga.elitism,
            total,
            parents,
            fitness,
            fns: ga.lambda,
            breeding: None,
            reports: Vec::new(),
        }
    }

    /// Says whether another generation runs: it does as long as the
    /// evaluations made are below the budget. If so, the best score of the
    /// population and the evaluations left are reported. If not, the
    /// evaluations made are at least the budget and exceed it by at most one
    /// population.
    pub fn next(&mut self) -> (report: Option<Report>)
        requires
            old(self).wf(),
            old(self).breeding is None,
        ensures
            final(self).wf(),
            final(self).lambda == old(self).lambda,
            final(self).elitism == old(self).elitism,
            final(self).total == old(self).total,
            final(self).parents == old(self).parents,
            final(self).fitness == old(self).fitness,
            final(self).fns == old(self).fns,
            report is Some <==> old(self).fns < old(self).total,
            report matches Some(r) ==> final(self).reports@ == old(self).reports@.push(r),
            report is None ==> final(self).reports == old(self).reports,
            report matches Some(r) ==> r.best == top(old(self).fitness@) && r.remaining == old(
                self,
            ).total - old(self).fns && final(self).breeding == Some(
                best_of(old(self).fitness@) as usize,
            ),
            report is None ==> final(self).breeding is None && old(self).total <= old(self).fns
                <= old(self).total + old(self).lambda,
    {
        if self.fns < self.total {
            let best: usize = best_index(&self.fitness);
            self.breeding = Some(best);
            let report = Report { best: self.fitness[best], remaining: self.total - self.fns };
            proof {
                if self.elitism {
                    lemma_never_fall_push(self.reports@, report);
                }
            }
            self.reports.push(report);
            Some(report)
        } else {
            None
        }
    }

    /// Takes the children of a generation and their scores. A child whose
    /// score is not finite is rejected, and the parent in its place stays
    /// with its score; the other children take the places of their parents.
    /// With elitism the best parent, if its place was taken, joins the new
    /// population with its score, and the member with the worst score leaves,
    /// the first of them if several have it: the population keeps its size,
    /// and its best score does not fall. The generation's `lambda`
    /// evaluations are counted.
    pub fn advance(&mut self, children: Vec<E>, scores: Vec<Score>)
        requires
            old(self).wf(),
            old(self).breeding is Some,
            children.len() == old(self).lambda,
            scores.len() == old(self).lambda,
        ensures
            final(self).wf(),
            final(self).breeding is None,
            final(self).lambda == old(self).lambda,
            final(self).elitism == old(self).elitism,
            final(self).total == old(self).total,
            final(self).reports == old(self).reports,
            final(self).fns == old(self).fns + old(self).lambda,
            !old(self).carries(scores@) ==> final(self).parents@ == kept_members(
                old(self).parents@,
                children@,
                scores@,
            ) && final(self).fitness@ == kept_members(old(self).fitness@, scores@, scores@),
            old(self).carries(scores@) ==> final(self).parents@ == survivors(
                kept_members(old(self).parents@, children@, scores@),
                kept_members(old(self).fitness@, scores@, scores@),
                old(self).parents[best_of(old(self).fitness@)],
                top(old(self).fitness@),
            ) && final(self).fitness@ == survivors(
                kept_members(old(self).fitness@, scores@, scores@),
                kept_members(old(self).fitness@, scores@, scores@),
                top(old(self).fitness@),
                top(old(self).fitness@),
            ),
            old(self).elitism ==> top(final(self).fitness@).rank() >= top(
                old(self).fitness@,
            ).rank(),
    {
        let best: usize = match self.breeding {
            Some(best) => best,
            None => 0,
        };
        proof {
            lemma_best_exists(self.fitness@);
            lemma_best_unique(self.fitness@, best as int, best_of(self.fitness@));
        }
        let elite_fit: Score = self.fitness[best];
        let mut old_parents: Vec<E> = Vec::new();
        let mut old_fitness: Vec<Score> = Vec::new();
        core::mem::swap(&mut self.parents, &mut old_parents);
        core::mem::swap(&mut self.fitness, &mut old_fitness);
        let ghost given = scores@;
        let (members, kept, elite) = settle(old_parents, old_fitness, children, scores, best);
        let mut children = members;
        let mut scores = kept;
        proof {
            if !given[best as int].finite() {
                assert(scores@[best as int] == elite_fit);
                lemma_top_dominates(scores@, best as int);
            }
        }
        match elite {
            Some(elite) => {
                if self.elitism {
                    let ghost young = scores@;
                    children.push(elite);
                    scores.push(elite_fit);
                    let worst: usize = worst_index(&scores);
                    children.swap_remove(worst);
                    scores.swap_remove(worst);
                    proof {
                        let all = young.push(elite_fit);
                        assert(scores@ == all.update(worst as int, elite_fit).drop_last());
                        if worst == self.lambda {
                            assert(scores@ =~= young);
                            assert(all[0].rank() >= all[worst as int].rank());
                            assert(scores@[0].rank() >= elite_fit.rank());
                            lemma_top_dominates(scores@, 0);
                        } else {
                            assert(scores@[worst as int] == elite_fit);
                            lemma_top_dominates(scores@, worst as int);
                        }
                    }
                }
            },
            None => {},
        }
        assert(self.lambda * (self.reports.len() + 1) == self.lambda * self.reports.len()
            + self.lambda) by (nonlinear_arith);
        self.parents = children;
        self.fitness = scores;
        self.fns += self.lambda;
        self.breeding = None;
    }

    /// Ends the run: the best score of the population and the member that
    /// has it. A best score that is not finite is an error; it can only be
    /// there from the first population, since no child is taken on one.
    pub fn finish(self) -> (r: Result<(Score, E), GaError>)
        requires
            self.wf(),
            self.breeding is None,
        ensures
            r is Ok <==> top(self.fitness@).finite(),
            r matches Ok(best) ==> best.0 == top(self.fitness@) && best.1 == self.parents[best_of(
                self.fitness@,
            )],
            r matches Err(e) ==> e == GaError::NonFiniteBest,
    {
        let best: usize = best_index(&self.fitness);
        let score: Score = self.fitness[best];
        if !score.is_finite() {
            return Err(GaError::NonFiniteBest);
        }
        let mut parents: Vec<E> = self.parents;
        let member: E = parents.swap_remove(best);
        Ok((score, member))
    }
}

} // verus!
