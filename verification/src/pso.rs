//! Particle swarm optimisation.
//!
//! A swarm of particles moves through the search space. Each particle keeps
//! the best position it has seen; the swarm follows the best of those. The
//! engine is here whole but for the arithmetic on coordinates, which comes in
//! as closures: `sample` draws a coordinate of a first position, `pull` makes
//! a new velocity in one dimension, `shift` adds a velocity to a position,
//! and `fly` makes the motions of a whole generation, which is the work that
//! can be spread over threads.

use crate::rank::{best_index, best_of, lemma_best_exists, lemma_top_dominates, top};
use crate::rng::{seeded, stream_of, uniform_u64};
use crate::score::{
    lemma_greater_raises_rank, lemma_lowest_is_finite, lemma_not_above_lowest, Score,
};
use crate::vector::{copy_of, filled};
use crate::{lemma_never_fall_push, never_fall, told, Fitness, Report};
use rand::rngs::StdRng;
use vstd::prelude::*;

verus! {

/// One particle of a swarm.
#[derive(Debug)]
pub struct Particle<T> {
    /// Where the particle is.
    pub position: Vec<T>,
    /// How it moves.
    pub velocity: Vec<T>,
    /// The best position it has been at.
    pub best_seen: Vec<T>,
    /// The score of where it is.
    pub fitness: Score,
    /// The score of the best position it has been at.
    pub best_fitness: Score,
}

/// Where a particle went in a generation, and what the objective says of it.
#[derive(Debug)]
pub struct Motion<T> {
    /// The new velocity.
    pub velocity: Vec<T>,
    /// The new position.
    pub position: Vec<T>,
    /// The score of the new position.
    pub fitness: Score,
}

/// `after` is what `pull` can make, under the settings `pso`, of a velocity
/// `v`, the coordinate `g` of the best position any particle has seen, the
/// coordinate `p` of a particle and the coordinate `b` of the best position
/// it has seen.
pub open spec fn is_pulled<T, V: Fn(&PSO, T, T, T, T, &mut StdRng) -> T>(
    pso: &PSO,
    v: T,
    g: T,
    p: T,
    b: T,
    after: T,
    pull: V,
) -> bool {
    exists|r: &mut StdRng| call_ensures(pull, (pso, v, g, p, b, r), after)
}

impl<T: Copy> Particle<T> {
    /// The particle is in a space of `dims` dimensions, and the best score
    /// it has seen is finite.
    pub open spec fn wf(&self, dims: int) -> bool {
        &&& self.position.len() == dims
        &&& self.velocity.len() == dims
        &&& self.best_seen.len() == dims
        &&& self.best_fitness.finite()
    }

    /// `after` is the particle once its position has been scored `fitness`:
    /// the score is taken, and where it is finite and strictly greater than
    /// the best the particle has seen, the position becomes the best seen.
    pub open spec fn recorded(self, fitness: Score, after: Particle<T>) -> bool {
        &&& after.position == self.position
        &&& after.velocity == self.velocity
        &&& after.fitness == fitness
        &&& fitness.betters(self.best_fitness) ==> after.best_seen@ == self.position@
            && after.best_fitness == fitness
        &&& !fitness.betters(self.best_fitness) ==> after.best_seen == self.best_seen
            && after.best_fitness == self.best_fitness
    }

    /// `after` is the particle once it has moved as `motion` says and its new
    /// position has been scored.
    pub open spec fn moved(self, motion: Motion<T>, after: Particle<T>) -> bool {
        &&& after.position == motion.position
        &&& after.velocity == motion.velocity
        &&& after.fitness == motion.fitness
        &&& motion.fitness.betters(self.best_fitness) ==> after.best_seen@ == motion.position@
            && after.best_fitness == motion.fitness
        &&& !motion.fitness.betters(self.best_fitness) ==> after.best_seen == self.best_seen
            && after.best_fitness == self.best_fitness
    }

    /// A particle at `position` that has not been scored yet: it rests, the
    /// best position it has seen is the origin, and both its scores are the
    /// lowest finite one. `origin` is the zero of the coordinates.
    pub fn new(position: Vec<T>, origin: T) -> (p: Particle<T>)
        ensures
            p.wf(position.len() as int),
            p.position == position,
            p.velocity@ == Seq::new(position.len() as nat, |i: int| origin),
            p.best_seen@ == Seq::new(position.len() as nat, |i: int| origin),
            p.fitness == Score::spec_lowest(),
            p.best_fitness == Score::spec_lowest(),
    {
        let dims: usize = position.len();
        proof {
            lemma_lowest_is_finite();
        }
        Particle {
            position,
            velocity: filled(origin, dims),
            best_seen: filled(origin, dims),
            fitness: Score::lowest(),
            best_fitness: Score::lowest(),
        }
    }

    /// Where the particle goes next, and the score of that place. Coordinate
    /// by coordinate, `pull` makes the new velocity of the old one, the best
    /// position any particle has seen, the particle's position and the best
    /// position it has seen itself, under the coefficients of `pso` and with
    /// draws of its own on the particle's random stream; then `shift` adds
    /// each new velocity to the position. `global_best` must be of the
    /// particle's space.
    pub fn motion<F, V, A>(
        &self,
        pso: &PSO,
        fit_fn: &F,
        global_best: &Vec<T>,
        rng: &mut StdRng,
        pull: &V,
        shift: &A,
    ) -> (m: Motion<T>)
        where
            F: Fitness<Data = Vec<T>>,
            V: Fn(&PSO, T, T, T, T, &mut StdRng) -> T,
            A: Fn(T, T) -> T,
        requires
            self.wf(global_best.len() as int),
            forall|s: &PSO, v: T, g: T, p: T, b: T, r: &mut StdRng|
                call_requires(*pull, (s, v, g, p, b, r)),
            forall|a: T, b: T| call_requires(*shift, (a, b)),
        ensures
            m.velocity.len() == global_best.len(),
            m.position.len() == global_best.len(),
            fit_fn.gives(&m.position, m.fitness),
            forall|i: int|
                0 <= i < global_best.len() ==> is_pulled(
                    pso,
                    self.velocity[i],
                    global_best[i],
                    self.position[i],
                    self.best_seen[i],
                    #[trigger] m.velocity[i],
                    *pull,
                ),
            forall|i: int|
                0 <= i < global_best.len() ==> call_ensures(
                    *shift,
                    (self.position[i], m.velocity[i]),
                    #[trigger] m.position[i],
                ),
    {
        let dims: usize = global_best.len();
        let mut velocity: Vec<T> = Vec::with_capacity(dims);
        let mut i: usize = 0;
        while i < dims
            invariant
                i <= dims,
                dims == global_best.len(),
                self.wf(dims as int),
                velocity.len() == i,
                forall|s: &PSO, v: T, g: T, p: T, b: T, r: &mut StdRng|
                    call_requires(*pull, (s, v, g, p, b, r)),
                forall|k: int|
                    0 <= k < i ==> is_pulled(
                        pso,
                        self.velocity[k],
                        global_best[k],
                        self.position[k],
                        self.best_seen[k],
                        #[trigger] velocity[k],
                        *pull,
                    ),
            decreases dims - i,
        {
            let v: T = pull(
                pso,
                self.velocity[i],
                global_best[i],
                self.position[i],
                self.best_seen[i],
                rng,
            );
            assert(is_pulled(
                pso,
                self.velocity[i as int],
                global_best[i as int],
                self.position[i as int],
                self.best_seen[i as int],
                v,
                *pull,
            ));
            velocity.push(v);
            i += 1;
        }
        let mut position: Vec<T> = Vec::with_capacity(dims);
        let mut j: usize = 0;
        while j < dims
            invariant
                j <= dims,
                dims == global_best.len(),
                self.wf(dims as int),
                velocity.len() == dims,
                position.len() == j,
                forall|a: T, b: T| call_requires(*shift, (a, b)),
                forall|k: int|
                    0 <= k < j ==> call_ensures(
                        *shift,
                        (self.position[k], velocity[k]),
                        #[trigger] position[k],
                    ),
            decreases dims - j,
        {
            position.push(shift(self.position[j], velocity[j]));
            j += 1;
        }
        let fitness: Score = fit_fn.score(&position);
        Motion { velocity, position, fitness }
    }

    /// Takes the score of the particle's position. A score that is not finite
    /// never becomes the best the particle has seen, and the best score the
    /// particle has seen never falls.
    pub fn record(&mut self, fitness: Score)
        ensures
            old(self).recorded(fitness, *final(self)),
            final(self).best_fitness.rank() >= old(self).best_fitness.rank(),
            forall|dims: int| old(self).wf(dims) ==> final(self).wf(dims),
    {
        self.fitness = fitness;
        if fitness.improves_on(self.best_fitness) {
            proof {
                lemma_greater_raises_rank(fitness, self.best_fitness);
            }
            self.best_seen = copy_of(&self.position);
            self.best_fitness = fitness;
        }
    }

    /// Scores the particle's position with `f` and takes the score, which is
    /// also returned. Whatever the objective answers, the particle is as
    /// [`Particle::record`] leaves it on that answer.
    pub fn evaluate<F: Fitness<Data = Vec<T>>>(&mut self, f: &F) -> (fitness: Score)
        ensures
            f.gives(&old(self).position, fitness),
            old(self).recorded(fitness, *final(self)),
            final(self).best_fitness.rank() >= old(self).best_fitness.rank(),
            forall|dims: int| old(self).wf(dims) ==> final(self).wf(dims),
    {
        let fitness: Score = f.score(&self.position);
        self.record(fitness);
        fitness
    }
}

/// The settings of the engine. The three coefficients are binary32 bit
/// patterns: the engine hands them to the caller's arithmetic, which makes
/// the velocities.
#[derive(Clone, Copy, Debug)]
pub struct PSO {
    /// Number of dimensions in the genome
    pub dims: usize,
    /// Number of particles in the swarm
    pub swarm_size: usize,
    /// Momentum coefficient
    pub w: u32,
    /// Global bias coefficient
    pub c_1: u32,
    /// Local bias coefficient
    pub c_2: u32,
}

/// `rng` is the fresh generator of some seed below the largest 64-bit
/// number.
pub open spec fn is_drawn_stream(rng: StdRng) -> bool {
    exists|s: u64| s < u64::MAX && rng == #[trigger] stream_of(s)
}

/// The best score each particle of a swarm has seen.
pub open spec fn seen_scores<T>(swarm: Seq<Particle<T>>) -> Seq<Score> {
    Seq::new(swarm.len(), |i: int| swarm[i].best_fitness)
}

impl PSO {
    /// Finds the particle that has seen the best score, the first of them if
    /// several have seen it, copies the position it saw it at into `cur_best`
    /// and returns the score. The swarm must not be empty.
    pub fn get_best<T: Copy>(swarm: &Vec<Particle<T>>, cur_best: &mut Vec<T>) -> (fit: Score)
        requires
            swarm.len() > 0,
        ensures
            fit == top(seen_scores(swarm@)),
            final(cur_best)@ == swarm[best_of(seen_scores(swarm@))].best_seen@,
    {
        let mut scores: Vec<Score> = Vec::with_capacity(swarm.len());
        let mut i: usize = 0;
        while i < swarm.len()
            invariant
                i <= swarm.len(),
                scores.len() == i,
                forall|j: int| 0 <= j < i ==> scores[j] == swarm[j].best_fitness,
            decreases swarm.len() - i,
        {
            scores.push(swarm[i].best_fitness);
            i += 1;
        }
        assert(scores@ =~= seen_scores(swarm@));
        let best: usize = best_index(&scores);
        *cur_best = copy_of(&swarm[best].best_seen);
        swarm[best].best_fitness
    }

    /// Particle `index` of a first swarm, at a `position` sampled for it. A
    /// warm start `x_in`, if given, replaces the sampled position of the
    /// first particle and of no other; it must have as many coordinates as
    /// the position it replaces.
    pub fn spawn<T: Copy>(index: usize, position: Vec<T>, x_in: Option<&Vec<T>>, origin: T) -> (p:
        Particle<T>)
        requires
            index == 0 ==> (x_in matches Some(x) ==> x.len() == position.len()),
        ensures
            p.wf(position.len() as int),
            p.position@ == (if index == 0 && x_in is Some {
                x_in->0@
            } else {
                position@
            }),
            p.velocity@ == Seq::new(position.len() as nat, |i: int| origin),
            p.best_seen@ == Seq::new(position.len() as nat, |i: int| origin),
            p.fitness == Score::spec_lowest(),
            p.best_fitness == Score::spec_lowest(),
    {
        let start: Vec<T> = match x_in {
            Some(x) => if index == 0 {
                copy_of(x)
            } else {
                position
            },
            None => position,
        };
        Particle::new(start, origin)
    }

    /// The private random streams of the particles, one each, seeded one
    /// after the other from draws on `rng`: each is the fresh generator of a
    /// seed drawn below the largest 64-bit number. A particle keeps its
    /// stream for the whole run.
    pub fn particle_streams(&self, rng: &mut StdRng) -> (streams: Vec<StdRng>)
        ensures
            streams.len() == self.swarm_size,
            forall|i: int|
                0 <= i < streams.len() ==> is_drawn_stream(#[trigger] streams[i]),
    {
        let mut streams: Vec<StdRng> = Vec::with_capacity(self.swarm_size);
        let mut i: usize = 0;
        while i < self.swarm_size
            invariant
                i <= self.swarm_size,
                streams.len() == i,
                forall|k: int|
                    0 <= k < i ==> is_drawn_stream(#[trigger] streams[k]),
            decreases self.swarm_size - i,
        {
            let seed: u64 = uniform_u64(rng, 0, u64::MAX);
            let stream: StdRng = seeded(seed);
            assert(is_drawn_stream(stream));
            streams.push(stream);
            i += 1;
        }
        streams
    }
}

/// The motions are what a swarm that waits for a generation can take: one
/// per particle, each in the swarm's space.
pub open spec fn motions_fit<T: Copy>(swarm: &Swarm<T>, motions: Seq<Motion<T>>) -> bool {
    &&& motions.len() == swarm.swarm_size
    &&& forall|i: int|
        0 <= i < motions.len() ==> (#[trigger] motions[i]).position.len() == swarm.dims
            && motions[i].velocity.len() == swarm.dims
}

/// The particles of `swarm` are where their last generation left them: `fly`
/// made motions for a swarm that waited for them, and every particle moved
/// as its motion says.
pub open spec fn flown_by<T: Copy, U: FnMut(&Swarm<T>, &mut Vec<StdRng>) -> Vec<Motion<T>>>(
    fly: U,
    swarm: Swarm<T>,
) -> bool {
    exists|before: Swarm<T>, g: &mut Vec<StdRng>, out: Vec<Motion<T>>|
        {
            &&& before.wf()
            &&& before.moving
            &&& #[trigger] call_ensures(fly, (&before, g), out)
            &&& out.len() == swarm.particles.len()
            &&& before.particles.len() == swarm.particles.len()
            &&& forall|i: int|
                0 <= i < swarm.particles.len() ==> before.particles[i].moved(
                    out[i],
                    #[trigger] swarm.particles[i],
                )
        }
}

/// `value` is something that `sample` can draw.
pub open spec fn is_drawn<T, S: FnMut(&mut StdRng) -> T>(value: T, sample: S) -> bool {
    exists|g: &mut StdRng| call_ensures(sample, (g,), value)
}

/// The objective gave each motion's position the motion's score.
pub open spec fn motions_scored<T: Copy, F: Fitness<Data = Vec<T>>>(
    fit_fn: &F,
    motions: Seq<Motion<T>>,
) -> bool {
    forall|i: int|
        0 <= i < motions.len() ==> fit_fn.gives(&(#[trigger] motions[i]).position, motions[i].fitness)
}

/// The objective gave the position `at` the score `score`.
pub open spec fn given_at<T, F: Fitness<Data = Vec<T>>>(fit_fn: &F, at: Seq<T>, score: Score) -> bool {
    exists|c: Vec<T>| c@ == at && #[trigger] fit_fn.gives(&c, score)
}

/// The best score a particle has seen is the lowest finite one, which it
/// starts with, or one that the objective gave to the best position it has
/// seen.
pub open spec fn seen_scored<T, F: Fitness<Data = Vec<T>>>(fit_fn: &F, p: Particle<T>) -> bool {
    p.best_fitness == Score::spec_lowest() || given_at(fit_fn, p.best_seen@, p.best_fitness)
}

/// `best` is not below the score of a warm start, if there is one and its
/// score is finite.
pub open spec fn above_start<T, F: Fitness<Data = Vec<T>>>(
    fit_fn: &F,
    x_in: Option<&Vec<T>>,
    best: Score,
) -> bool {
    match x_in {
        Some(v) => exists|s: Score|
            #[trigger] given_at(fit_fn, v@, s) && (s.finite() ==> s.rank() <= best.rank()),
        None => true,
    }
}

impl PSO {
    /// Runs the engine on a budget of `total_fns` evaluations, all its draws
    /// coming from `seed`. Every particle gets a position of `dims` draws of
    /// `sample`, the first particle the warm start `x_in` instead if there
    /// is one, and is scored. Then every particle gets a random stream of its
    /// own, and as long as the budget has room for a generation, `callback`
    /// is told the best score seen and the evaluations left, and `fly` makes
    /// the motions of all particles from the swarm and the particles'
    /// streams, which is the work that can be spread over threads. `origin`
    /// is the zero of the coordinates.
    ///
    /// The swarm that is returned has scored every particle once at the start
    /// and once for every report; that is at least the budget less one swarm
    /// of evaluations, and fewer than the budget unless the first scoring
    /// alone reached it. Every report tells what was left of the budget when
    /// it was made, and the reports never fall. The best score is finite: it
    /// is the lowest finite score, which every particle starts with, or what
    /// the objective gave to the best position. The first particle starts at
    /// the warm start, and the best is not below the warm start's score
    /// where that is finite.
    pub fn fit<T, F, S, U, C>(
        &self,
        fit_fn: &F,
        total_fns: usize,
        seed: u64,
        x_in: Option<&Vec<T>>,
        origin: T,
        sample: S,
        fly: U,
        callback: C,
    ) -> (swarm: Swarm<T>)
        where
            T: Copy,
            F: Fitness<Data = Vec<T>>,
            S: FnMut(&mut StdRng) -> T,
            U: FnMut(&Swarm<T>, &mut Vec<StdRng>) -> Vec<Motion<T>>,
            C: FnMut(Score, usize) -> (),
        requires
            self.swarm_size > 0,
            x_in matches Some(x) ==> x.len() == self.dims,
            forall|g: &mut StdRng| call_requires(sample, (g,)),
            forall|s: &Swarm<T>, g: &mut Vec<StdRng>|
                s.wf() && s.moving ==> call_requires(fly, (s, g)),
            forall|s: &Swarm<T>, g: &mut Vec<StdRng>, out: Vec<Motion<T>>|
                s.wf() && s.moving && call_ensures(fly, (s, g), out) ==> motions_fit(s, out@)
                    && motions_scored(fit_fn, out@),
            forall|s: Score, n: usize| call_requires(callback, (s, n)),
        ensures
            swarm.wf(),
            !swarm.moving,
            swarm.dims == self.dims,
            swarm.swarm_size == self.swarm_size,
            swarm.total == total_fns,
            swarm.fn_count + swarm.swarm_size >= total_fns,
            swarm.fn_count == swarm.swarm_size || swarm.fn_count < total_fns,
            swarm.fn_count == self.swarm_size * (swarm.reports.len() + 1),
            forall|k: int|
                0 <= k < swarm.reports.len() ==> (#[trigger] swarm.reports[k]).remaining
                    == total_fns - self.swarm_size * (k + 1),
            never_fall(swarm.reports@),
            told(callback, swarm.reports@),
            swarm.reports.len() > 0 ==> flown_by(fly, swarm),
            swarm.reports.len() > 0 ==> swarm.reports@.last().best.rank()
                <= swarm.global_fit.rank(),
            swarm.global_fit == swarm.best_seen_score(),
            swarm.global_fit.finite(),
            swarm.global_fit == Score::spec_lowest() || given_at(
                fit_fn,
                swarm.global_best@,
                swarm.global_fit,
            ),
            above_start(fit_fn, x_in, swarm.global_fit),
            forall|i: int|
                0 <= i < swarm.particles.len() ==> given_at(
                    fit_fn,
                    (#[trigger] swarm.particles[i]).position@,
                    swarm.particles[i].fitness,
                ),
            swarm.reports.len() == 0 ==> forall|i: int, j: int|
                0 <= i < swarm.particles.len() && 0 <= j < self.dims && (i > 0 || x_in is None)
                    ==> is_drawn(#[trigger] swarm.particles[i].position[j], sample),
            swarm.reports.len() == 0 && x_in is Some ==> swarm.particles[0].position@ == x_in->0@,
            swarm.global_best@ == swarm.particles[best_of(seen_scores(swarm.particles@))].best_seen@,
    {
        let mut draw = sample;
        let mut fly_all = fly;
        let mut tell = callback;
        let ghost sample0 = draw;
        let ghost fly0 = fly_all;
        let ghost callback0 = tell;
        let mut rng: StdRng = seeded(seed);
        let mut particles: Vec<Particle<T>> = Vec::with_capacity(self.swarm_size);
        let mut i: usize = 0;
        while i < self.swarm_size
            invariant
                i <= self.swarm_size,
                particles.len() == i,
                x_in matches Some(x) ==> x.len() == self.dims,
                draw == sample0,
                sample0 == sample,
                forall|g: &mut StdRng| call_requires(draw, (g,)),
                forall|k: int| 0 <= k < i ==> (#[trigger] particles[k]).wf(self.dims as int),
                forall|k: int| 0 <= k < i ==> seen_scored(fit_fn, #[trigger] particles[k]),
                forall|k: int|
                    0 <= k < i ==> given_at(
                        fit_fn,
                        (#[trigger] particles[k]).position@,
                        particles[k].fitness,
                    ),
                forall|k: int, j: int|
                    0 <= k < i && 0 <= j < self.dims && (k > 0 || x_in is None) ==> is_drawn(
                        #[trigger] particles[k].position[j],
                        draw,
                    ),
                i > 0 && x_in is Some ==> particles[0].position@ == x_in->0@ && exists|s: Score|
                    #[trigger] given_at(fit_fn, x_in->0@, s) && (s.finite() ==> s.rank()
                        <= particles[0].best_fitness.rank()),
            decreases self.swarm_size - i,
        {
            let mut position: Vec<T> = Vec::with_capacity(self.dims);
            let mut j: usize = 0;
            while j < self.dims
                invariant
                    j <= self.dims,
                    position.len() == j,
                    draw == sample0,
                sample0 == sample,
                    forall|g: &mut StdRng| call_requires(draw, (g,)),
                    forall|h: int| 0 <= h < j ==> is_drawn(#[trigger] position[h], draw),
                decreases self.dims - j,
            {
                let value: T = draw(&mut rng);
                assert(is_drawn(value, draw));
                position.push(value);
                j += 1;
            }
            let ghost drawn = position@;
            let mut p: Particle<T> = PSO::spawn(i, position, x_in, origin);
            let ghost fresh = p;
            let fitness: Score = p.evaluate(fit_fn);
            proof {
                assert(given_at(fit_fn, fresh.position@, fitness));
                assert(i > 0 || x_in is None ==> p.position@ == drawn);
                if !fitness.betters(fresh.best_fitness) && fitness.finite() {
                    lemma_not_above_lowest(fitness);
                }
                if i == 0 && x_in is Some {
                    assert(given_at(fit_fn, x_in->0@, fitness) && (fitness.finite()
                        ==> fitness.rank() <= p.best_fitness.rank()));
                }
            }
            particles.push(p);
            i += 1;
        }
        proof {
            lemma_top_dominates(seen_scores(particles@), 0);
        }
        let ghost first_rank: u32 = particles[0].best_fitness.rank();
        let mut rngs: Vec<StdRng> = self.particle_streams(&mut rng);
        let mut swarm: Swarm<T> = Swarm::begin(self, total_fns, particles, origin);
        loop
            invariant
                swarm.wf(),
                !swarm.moving,
                swarm.dims == self.dims,
                swarm.swarm_size == self.swarm_size,
                swarm.total == total_fns,
                forall|k: int|
                    0 <= k < swarm.particles.len() ==> seen_scored(
                        fit_fn,
                        #[trigger] swarm.particles[k],
                    ),
                first_rank <= swarm.best_seen_score().rank(),
                forall|k: int|
                    0 <= k < swarm.particles.len() ==> given_at(
                        fit_fn,
                        (#[trigger] swarm.particles[k]).position@,
                        swarm.particles[k].fitness,
                    ),
                swarm.reports.len() == 0 ==> forall|k: int, j: int|
                    0 <= k < swarm.particles.len() && 0 <= j < self.dims && (k > 0 || x_in is None)
                        ==> is_drawn(#[trigger] swarm.particles[k].position[j], sample0),
                sample0 == sample,
                told(tell, swarm.reports@),
                swarm.reports.len() > 0 ==> flown_by(fly_all, swarm),
                x_in is Some ==> exists|s: Score|
                    #[trigger] given_at(fit_fn, x_in->0@, s) && (s.finite() ==> s.rank()
                        <= first_rank),
                swarm.reports.len() == 0 && x_in is Some ==> swarm.particles[0].position@
                    == x_in->0@,
                fly_all == fly0,
                fly0 == fly,
                tell == callback0,
                callback0 == callback,
                forall|s: &Swarm<T>, g: &mut Vec<StdRng>|
                    s.wf() && s.moving ==> call_requires(fly_all, (s, g)),
                forall|s: &Swarm<T>, g: &mut Vec<StdRng>, out: Vec<Motion<T>>|
                    s.wf() && s.moving && call_ensures(fly_all, (s, g), out) ==> motions_fit(s, out@)
                        && motions_scored(fit_fn, out@),
                forall|s: Score, n: usize| call_requires(tell, (s, n)),
            decreases swarm.total + swarm.swarm_size - swarm.fn_count,
        {
            let report: Report = match swarm.next() {
                Some(report) => report,
                None => {
                    proof {
                        swarm.lemma_best_seen_is_finite();
                        let b = best_of(seen_scores(swarm.particles@));
                        assert(seen_scored(fit_fn, swarm.particles[b]));
                        if x_in is Some {
                            let s = choose|s: Score|
                                #[trigger] given_at(fit_fn, x_in->0@, s) && (s.finite()
                                    ==> s.rank() <= first_rank);
                            assert(given_at(fit_fn, x_in->0@, s) && (s.finite() ==> s.rank()
                                <= swarm.global_fit.rank()));
                        }
                    }
                    return swarm;
                },
            };
            tell(report.best, report.remaining);
            let motions: Vec<Motion<T>> = fly_all(&swarm, &mut rngs);
            let ghost before = swarm;
            swarm.advance(motions);
            proof {
                assert(flown_by(fly_all, swarm));
                assert forall|k: int| 0 <= k < swarm.particles.len() implies given_at(
                    fit_fn,
                    (#[trigger] swarm.particles[k]).position@,
                    swarm.particles[k].fitness,
                ) by {
                    assert(before.particles[k].moved(motions[k], swarm.particles[k]));
                    assert(fit_fn.gives(&motions[k].position, motions[k].fitness));
                }
                assert forall|k: int| 0 <= k < swarm.particles.len() implies seen_scored(
                    fit_fn,
                    #[trigger] swarm.particles[k],
                ) by {
                    assert(before.particles[k].moved(motions[k], swarm.particles[k]));
                    assert(seen_scored(fit_fn, before.particles[k]));
                    if motions[k].fitness.betters(before.particles[k].best_fitness) {
                        assert(fit_fn.gives(&motions[k].position, motions[k].fitness));
                        assert(given_at(fit_fn, swarm.particles[k].best_seen@, motions[k].fitness));
                    }
                }
            }
        }
    }
}

/// The state of a run of the engine.
#[derive(Debug)]
pub struct Swarm<T> {
    /// Number of dimensions of the space.
    pub dims: usize,
    /// Number of particles.
    pub swarm_size: usize,
    /// The budget of evaluations.
    pub total: usize,
    /// The particles.
    pub particles: Vec<Particle<T>>,
    /// The best position any particle had seen when the swarm was last asked
    /// for its next step.
    pub global_best: Vec<T>,
    /// The score of that position.
    pub global_fit: Score,
    /// Evaluations made so far.
    pub fn_count: usize,
    /// Whether the swarm waits for the motions of a generation.
    pub moving: bool,
    /// What the run has reported so far, generation by generation.
    pub reports: Vec<Report>,
}

impl<T: Copy> Swarm<T> {
    /// The evaluations of the budget that are left.
    pub open spec fn remaining(&self) -> usize {
        if self.fn_count < self.total {
            (self.total - self.fn_count) as usize
        } else {
            0
        }
    }

    /// The swarm has its configured size, every particle is in the configured
    /// space, every particle has been scored once at the start and once for
    /// every generation since, no generation was started that the budget had
    /// no room for, and the reports never fall, nor is the best score any
    /// particle has seen below the last of them.
    pub open spec fn wf(&self) -> bool {
        &&& self.swarm_size > 0
        &&& never_fall(self.reports@)
        &&& self.reports.len() > 0 ==> self.reports@.last().best.rank()
            <= self.best_seen_score().rank() && self.reports@.last().remaining >= self.remaining()
        &&& self.particles.len() == self.swarm_size
        &&& forall|i: int|
            0 <= i < self.swarm_size ==> (#[trigger] self.particles[i]).wf(self.dims as int)
        &&& self.fn_count >= self.swarm_size
        &&& self.fn_count == self.swarm_size || self.fn_count < self.total
        &&& self.fn_count == self.swarm_size * (self.generations() + 1)
        &&& forall|k: int|
            0 <= k < self.reports.len() ==> (#[trigger] self.reports[k]).remaining == self.total
                - self.swarm_size * (k + 1)
        &&& self.moving ==> self.fn_count + self.swarm_size < self.total
    }

    /// The generations that have run in full: one per report, but for a
    /// generation that is still on its way.
    pub open spec fn generations(&self) -> int {
        if self.moving {
            self.reports.len() - 1
        } else {
            self.reports.len() as int
        }
    }

    /// The best score any particle has seen.
    pub open spec fn best_seen_score(&self) -> Score {
        top(seen_scores(self.particles@))
    }

    /// The best score any particle of a swarm has seen is finite.
    pub proof fn lemma_best_seen_is_finite(&self)
        requires
            self.wf(),
        ensures
            self.best_seen_score().finite(),
            0 <= best_of(seen_scores(self.particles@)) < self.particles.len(),
    {
        let seen = seen_scores(self.particles@);
        lemma_best_exists(seen);
        let b = best_of(seen);
        assert(seen[b] == self.particles[b].best_fitness);
        assert(self.particles[b].wf(self.dims as int));
    }

    /// Starts a run on particles that have been scored once each.
    pub fn begin(pso: &PSO, total: usize, particles: Vec<Particle<T>>, origin: T) -> (swarm: Swarm<
        T,
    >)
        requires
            pso.swarm_size > 0,
            particles.len() == pso.swarm_size,
            forall|i: int| 0 <= i < particles.len() ==> (#[trigger] particles[i]).wf(pso.dims as int),
        ensures
            swarm.wf(),
            swarm.dims == pso.dims,
            swarm.swarm_size == pso.swarm_size,
            swarm.total == total,
            swarm.particles == particles,
            swarm.global_best@ == Seq::new(pso.dims as nat, |i: int| origin),
            swarm.fn_count == pso.swarm_size,
            !swarm.moving,
            swarm.reports@ == Seq::<Report>::empty(),
    {
        assert(pso.swarm_size * 1 == pso.swarm_size) by (nonlinear_arith);
        Swarm {
            dims: pso.dims,
            swarm_size: pso.swarm_size,
            total,
            particles,
            global_best: filled(origin, pso.dims),
            global_fit: Score::lowest(),
            fn_count: pso.swarm_size,
            moving: false,
            reports: Vec::new(),
        }
    }

    /// Finds the best position any particle has seen, and says whether
    /// another generation runs: it does if the evaluations made and one more
    /// for every particle stay strictly below the budget. If so, the best
    /// score and the evaluations left are reported. If not, the run is over,
    /// having made at least the budget less one swarm of evaluations, and
    /// fewer than the budget unless the first scoring alone reached it.
    pub fn next(&mut self) -> (report: Option<Report>)
        requires
            old(self).wf(),
            !old(self).moving,
        ensures
            final(self).wf(),
            final(self).dims == old(self).dims,
            final(self).swarm_size == old(self).swarm_size,
            final(self).total == old(self).total,
            final(self).particles == old(self).particles,
            final(self).fn_count == old(self).fn_count,
            final(self).global_fit == old(self).best_seen_score(),
            final(self).global_best@ == old(self).particles[best_of(
                seen_scores(old(self).particles@),
            )].best_seen@,
            report is Some <==> old(self).fn_count + old(self).swarm_size < old(self).total,
            final(self).moving == report is Some,
            report matches Some(r) ==> final(self).reports@ == old(self).reports@.push(r),
            report is None ==> final(self).reports == old(self).reports,
            report matches Some(r) ==> r.best == old(self).best_seen_score() && r.remaining == old(
                self,
            ).total - old(self).fn_count,
            report is None ==> old(self).fn_count + old(self).swarm_size >= old(self).total && (old(
                self,
            ).fn_count == old(self).swarm_size || old(self).fn_count < old(self).total),
    {
        let fit: Score = PSO::get_best(&self.particles, &mut self.global_best);
        self.global_fit = fit;
        if self.total > self.swarm_size && self.fn_count < self.total - self.swarm_size {
            self.moving = true;
            let report = Report { best: fit, remaining: self.total - self.fn_count };
            proof {
                lemma_never_fall_push(self.reports@, report);
            }
            self.reports.push(report);
            Some(report)
        } else {
            None
        }
    }

    /// Makes the motions of a whole generation, one particle after the other,
    /// each on its own stream of `rngs`, of which there must be one per
    /// particle. Every motion is what [`Particle::motion`] makes of its
    /// particle, so the motions are the same in whatever order, and on
    /// whatever threads, they are made.
    pub fn motions<F, V, A>(
        &self,
        pso: &PSO,
        fit_fn: &F,
        rngs: &mut Vec<StdRng>,
        pull: &V,
        shift: &A,
    ) -> (motions: Vec<Motion<T>>)
        where
            F: Fitness<Data = Vec<T>>,
            V: Fn(&PSO, T, T, T, T, &mut StdRng) -> T,
            A: Fn(T, T) -> T,
        requires
            self.wf(),
            self.global_best.len() == self.dims,
            old(rngs).len() == self.swarm_size,
            forall|s: &PSO, v: T, g: T, p: T, b: T, r: &mut StdRng|
                call_requires(*pull, (s, v, g, p, b, r)),
            forall|a: T, b: T| call_requires(*shift, (a, b)),
        ensures
            final(rngs).len() == old(rngs).len(),
            motions_fit(self, motions@),
            forall|i: int|
                0 <= i < self.swarm_size ==> fit_fn.gives(
                    &(#[trigger] motions[i]).position,
                    motions[i].fitness,
                ),
            forall|i: int, j: int|
                0 <= i < self.swarm_size && 0 <= j < self.dims ==> is_pulled(
                    pso,
                    self.particles[i].velocity[j],
                    self.global_best[j],
                    self.particles[i].position[j],
                    self.particles[i].best_seen[j],
                    #[trigger] motions[i].velocity[j],
                    *pull,
                ),
            forall|i: int, j: int|
                0 <= i < self.swarm_size && 0 <= j < self.dims ==> call_ensures(
                    *shift,
                    (self.particles[i].position[j], motions[i].velocity[j]),
                    #[trigger] motions[i].position[j],
                ),
    {
        let mut motions: Vec<Motion<T>> = Vec::with_capacity(self.swarm_size);
        let mut i: usize = 0;
        while i < self.swarm_size
            invariant
                i <= self.swarm_size,
                motions.len() == i,
                self.wf(),
                self.global_best.len() == self.dims,
                rngs.len() == self.swarm_size,
                forall|s: &PSO, v: T, g: T, p: T, b: T, r: &mut StdRng|
                    call_requires(*pull, (s, v, g, p, b, r)),
                forall|a: T, b: T| call_requires(*shift, (a, b)),
                forall|k: int|
                    0 <= k < i ==> (#[trigger] motions[k]).position.len() == self.dims
                        && motions[k].velocity.len() == self.dims,
                forall|k: int|
                    0 <= k < i ==> fit_fn.gives(
                        &(#[trigger] motions[k]).position,
                        motions[k].fitness,
                    ),
                forall|k: int, j: int|
                    0 <= k < i && 0 <= j < self.dims ==> is_pulled(
                        pso,
                        self.particles[k].velocity[j],
                        self.global_best[j],
                        self.particles[k].position[j],
                        self.particles[k].best_seen[j],
                        #[trigger] motions[k].velocity[j],
                        *pull,
                    ),
                forall|k: int, j: int|
                    0 <= k < i && 0 <= j < self.dims ==> call_ensures(
                        *shift,
                        (self.particles[k].position[j], motions[k].velocity[j]),
                        #[trigger] motions[k].position[j],
                    ),
            decreases self.swarm_size - i,
        {
            assert(self.particles[i as int].wf(self.dims as int));
            let motion: Motion<T> = self.particles[i].motion(
                pso,
                fit_fn,
                &self.global_best,
                &mut rngs[i],
                pull,
                shift,
            );
            motions.push(motion);
            i += 1;
        }
        motions
    }

    /// Takes the motions of a generation, one per particle: each particle
    /// gets its new velocity and position and takes the score of the new
    /// position. One evaluation per particle is counted. The best score any
    /// particle has seen never falls.
    pub fn advance(&mut self, motions: Vec<Motion<T>>)
        requires
            old(self).wf(),
            old(self).moving,
            motions.len() == old(self).swarm_size,
            forall|i: int|
                0 <= i < motions.len() ==> (#[trigger] motions[i]).position.len() == old(self).dims
                    && motions[i].velocity.len() == old(self).dims,
        ensures
            final(self).wf(),
            !final(self).moving,
            final(self).dims == old(self).dims,
            final(self).swarm_size == old(self).swarm_size,
            final(self).total == old(self).total,
            final(self).global_best == old(self).global_best,
            final(self).global_fit == old(self).global_fit,
            final(self).reports == old(self).reports,
            final(self).fn_count == old(self).fn_count + old(self).swarm_size,
            forall|i: int|
                0 <= i < old(self).swarm_size ==> old(self).particles[i].moved(
                    motions[i],
                    #[trigger] final(self).particles[i],
                ),
            final(self).best_seen_score().rank() >= old(self).best_seen_score().rank(),
    {
        let ghost before = self.particles@;
        let ghost motions0 = motions@;
        let mut motions = motions;
        let mut i: usize = self.swarm_size;
        while i > 0
            invariant
                i <= self.swarm_size,
                self.swarm_size == before.len(),
                self.swarm_size == motions0.len(),
                self.particles.len() == self.swarm_size,
                motions@ == motions0.subrange(0, i as int),
                forall|j: int|
                    0 <= j < motions0.len() ==> (#[trigger] motions0[j]).position.len() == self.dims
                        && motions0[j].velocity.len() == self.dims,
                forall|j: int| 0 <= j < before.len() ==> (#[trigger] before[j]).wf(self.dims as int),
                forall|j: int| 0 <= j < i ==> #[trigger] self.particles@[j] == before[j],
                forall|j: int|
                    i <= j < self.swarm_size ==> before[j].moved(
                        motions0[j],
                        #[trigger] self.particles@[j],
                    ),
                forall|j: int|
                    i <= j < self.swarm_size ==> (#[trigger] self.particles@[j]).wf(
                        self.dims as int,
                    ) && self.particles@[j].best_fitness.rank() >= before[j].best_fitness.rank(),
                self.dims == old(self).dims,
                self.swarm_size == old(self).swarm_size,
                self.total == old(self).total,
                self.global_best == old(self).global_best,
                self.global_fit == old(self).global_fit,
                self.fn_count == old(self).fn_count,
                self.moving == old(self).moving,
                self.reports == old(self).reports,
            decreases i,
        {
            i -= 1;
            let motion: Motion<T> = motions.pop().unwrap();
            let fitness: Score = motion.fitness;
            let particle = &mut self.particles[i];
            particle.velocity = motion.velocity;
            particle.position = motion.position;
            particle.record(fitness);
        }
        assert(self.swarm_size * (self.reports.len() + 1) == self.swarm_size * self.reports.len()
            + self.swarm_size) by (nonlinear_arith);
        self.fn_count += self.swarm_size;
        self.moving = false;
        proof {
            let was = seen_scores(before);
            let now = seen_scores(self.particles@);
            lemma_best_exists(was);
            let b = best_of(was);
            lemma_top_dominates(now, b);
        }
    }

    /// Ends the run: the best score any particle has seen, and the position
    /// it was seen at.
    pub fn finish(self) -> (r: (Score, Vec<T>))
        requires
            self.wf(),
            !self.moving,
        ensures
            r.0 == self.best_seen_score(),
            r.0.finite(),
            r.1@ == self.particles[best_of(seen_scores(self.particles@))].best_seen@,
    {
        proof {
            self.lemma_best_seen_is_finite();
        }
        let mut global_best: Vec<T> = self.global_best;
        let fit: Score = PSO::get_best(&self.particles, &mut global_best);
        (fit, global_best)
    }
}

} // verus!
