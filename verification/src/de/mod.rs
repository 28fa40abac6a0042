//! Differential evolution with restarts.
//!
//! The engine keeps a population of candidates and their scores. In every
//! generation each candidate is either thrown to a random point around the
//! best one (escape), or recombined with the best and the difference of two
//! others (recombination). After too many generations without improvement
//! the population is sampled anew around the best candidate (polish), or the
//! pass is given up for a fresh one (restart). The engine is here whole but
//! for the arithmetic on coordinates, which is the caller's.

pub mod campaign;
pub mod crossover;
pub mod engine;
pub mod pass;

use crate::de::crossover::{draw_span, Span};
use crate::rng::distinct_indices;
use rand::rngs::StdRng;
use vstd::prelude::*;

verus! {

/// How a trial takes coordinates from the donor.
#[derive(Clone, Copy, Debug)]
pub enum CrossoverType {
    /// A cyclic run of coordinates between two drawn points.
    TwoPoint,
    /// Each coordinate on its own, with the given rate. The rate is a binary32
    /// bit pattern, which the engine hands to the draw that it concerns.
    Uniform(u32),
}

/// The settings of the engine. The numeric settings are binary32 bit patterns:
/// the engine hands each to the arithmetic that it concerns, which is the
/// caller's.
#[derive(Debug)]
pub struct DePlus<D> {
    /// Input space
    pub dims: usize,
    /// Population size.
    pub lambda: usize,
    /// Range of the dithered learning rate.
    pub f: (u32, u32),
    /// Crossover type
    pub cr: CrossoverType,
    /// Likelihood of replacing a candidate with a perturbation of the best.
    pub m: u32,
    /// Expansion constant of that perturbation.
    pub exp: u32,
    /// If set and not zero, polish around the best candidate once no score
    /// has improved for that many generations.
    pub polish_on_stale: Option<usize>,
    /// If set and not zero, give the pass up once the best score has not
    /// improved for that many generations.
    pub restart_on_stale: Option<usize>,
    /// Distribution to sample from for initialization
    pub init_dist: D,
}

impl<D: Clone> Clone for DePlus<D> {
    fn clone(&self) -> (copy: Self)
        ensures
            copy.dims == self.dims,
            copy.lambda == self.lambda,
            copy.f == self.f,
            copy.cr == self.cr,
            copy.m == self.m,
            copy.exp == self.exp,
            copy.polish_on_stale == self.polish_on_stale,
            copy.restart_on_stale == self.restart_on_stale,
    {
        DePlus {
            dims: self.dims,
            lambda: self.lambda,
            f: (self.f.0, self.f.1),
            cr: self.cr,
            m: self.m,
            exp: self.exp,
            polish_on_stale: self.polish_on_stale,
            restart_on_stale: self.restart_on_stale,
            init_dist: self.init_dist.clone(),
        }
    }
}

impl<D: Copy> Copy for DePlus<D> {

}

/// What happens to one candidate in a generation.
#[derive(Clone, Copy, Debug)]
pub enum Move {
    /// The candidate is thrown to a random point around the best.
    Escape,
    /// Recombination with candidates `a` and `b`, two-point crossover on `span`.
    TwoPoint { a: usize, b: usize, span: Span },
    /// Recombination with candidates `a` and `b`, uniform crossover at `rate`.
    Uniform { a: usize, b: usize, rate: u32 },
}

/// `after` is `before` shifted by `by`, as far as both go: each of its
/// coordinates is what `shift` makes of the coordinate of `before` and that of
/// `by`, and coordinates beyond the end of `by` are as they were.
pub open spec fn is_shifted<T, A: Fn(T, T) -> T>(before: Seq<T>, by: Seq<T>, after: Seq<T>, shift: A) -> bool {
    &&& after.len() == before.len()
    &&& forall|j: int|
        0 <= j < before.len() ==> if j < by.len() {
            call_ensures(shift, (before[j], by[j]), #[trigger] after[j])
        } else {
            after[j] == before[j]
        }
}

/// `after` is `before` with its leading coordinates replaced by those of
/// `by`, as far as both go.
pub open spec fn is_overlaid<T>(before: Seq<T>, by: Seq<T>, after: Seq<T>) -> bool {
    &&& after.len() == before.len()
    &&& forall|j: int|
        0 <= j < before.len() ==> #[trigger] after[j] == (if j < by.len() {
            by[j]
        } else {
            before[j]
        })
}

/// Centres a first population on a warm start `x_in`: the first candidate
/// becomes `x_in` itself, and every other candidate is shifted by `x_in`,
/// coordinate by coordinate. `shift` is the addition of coordinates.
pub fn recentre<T: Copy, A: Fn(T, T) -> T>(pop: &mut Vec<Vec<T>>, x_in: &Vec<T>, shift: &A)
    requires
        forall|a: T, b: T| call_requires(*shift, (a, b)),
    ensures
        final(pop).len() == old(pop).len(),
        old(pop).len() > 0 ==> is_overlaid(old(pop)[0]@, x_in@, final(pop)[0]@),
        forall|i: int|
            1 <= i < old(pop).len() ==> is_shifted(
                old(pop)[i]@,
                x_in@,
                (#[trigger] final(pop)[i])@,
                *shift,
            ),
{
    let ghost before = pop@;
    let mut i: usize = 0;
    while i < pop.len()
        invariant
            i <= pop.len(),
            pop.len() == before.len(),
            forall|a: T, b: T| call_requires(*shift, (a, b)),
            forall|k: int| i <= k < pop.len() ==> #[trigger] pop@[k] == before[k],
            i > 0 ==> is_overlaid(before[0]@, x_in@, pop@[0]@),
            forall|k: int|
                1 <= k < i ==> is_shifted(before[k]@, x_in@, (#[trigger] pop@[k])@, *shift),
        decreases pop.len() - i,
    {
        let ghost row = pop@[i as int]@;
        let dims: usize = pop[i].len();
        let mut j: usize = 0;
        while j < dims && j < x_in.len()
            invariant
                i < pop.len(),
                pop.len() == before.len(),
                row == before[i as int]@,
                dims == row.len(),
                j <= dims,
                j <= x_in.len(),
                forall|a: T, b: T| call_requires(*shift, (a, b)),
                forall|k: int| i < k < pop.len() ==> #[trigger] pop@[k] == before[k],
                i > 0 ==> is_overlaid(before[0]@, x_in@, pop@[0]@),
                forall|k: int|
                    1 <= k < i ==> is_shifted(before[k]@, x_in@, (#[trigger] pop@[k])@, *shift),
                pop@[i as int]@.len() == dims,
                forall|h: int| j <= h < dims ==> #[trigger] pop@[i as int]@[h] == row[h],
                forall|h: int|
                    0 <= h < j ==> if i == 0 {
                        #[trigger] pop@[i as int]@[h] == x_in@[h]
                    } else {
                        call_ensures(*shift, (row[h], x_in@[h]), #[trigger] pop@[i as int]@[h])
                    },
            decreases dims - j,
        {
            let value: T = if i == 0 {
                x_in[j]
            } else {
                shift(pop[i][j], x_in[j])
            };
            pop[i].set(j, value);
            j += 1;
        }
        i += 1;
    }
}

/// A threshold that is set and not zero, or 0 for one that is off.
pub open spec fn threshold(setting: Option<usize>) -> usize {
    match setting {
        Some(k) => k,
        None => 0,
    }
}

impl<D> DePlus<D> {
    /// Generations without any improvement after which the engine polishes; 0
    /// if it never does.
    pub fn polish_after(&self) -> (k: usize)
        ensures
            k == threshold(self.polish_on_stale),
    {
        match self.polish_on_stale {
            Some(k) => k,
            None => 0,
        }
    }

    /// Generations without a better best after which a pass is given up; 0 if
    /// it never is.
    pub fn restart_after(&self) -> (k: usize)
        ensures
            k == threshold(self.restart_on_stale),
    {
        match self.restart_on_stale {
            Some(k) => k,
            None => 0,
        }
    }

    /// Whether candidate `idx` may escape at all: the best one never does.
    pub fn may_escape(&self, idx: usize, best: usize) -> (r: bool)
        ensures
            r == (idx != best),
    {
        idx != best
    }

    /// Decides what happens to candidate `idx`. `escape_drawn` says whether the
    /// draw against the escape likelihood came out for an escape. The best
    /// candidate is recombined whatever was drawn. For a recombination the two
    /// partners are drawn from the whole population, distinct from one
    /// another, and for two-point crossover the run of coordinates as well.
    pub fn plan(&self, idx: usize, best: usize, escape_drawn: bool, rng: &mut StdRng) -> (mv: Move)
        requires
            self.lambda >= 2,
            self.cr is TwoPoint ==> self.dims > 0,
        ensures
            mv is Escape <==> idx != best && escape_drawn,
            mv is TwoPoint <==> !(idx != best && escape_drawn) && self.cr is TwoPoint,
            mv is Uniform <==> !(idx != best && escape_drawn) && self.cr is Uniform,
            mv matches Move::TwoPoint { a, b, span } ==> {
                &&& a < self.lambda
                &&& b < self.lambda
                &&& a != b
                &&& span.within(self.dims as int)
                &&& self.dims > 1 ==> span.start != span.end
            },
            mv matches Move::Uniform { a, b, rate } ==> {
                &&& a < self.lambda
                &&& b < self.lambda
                &&& a != b
                &&& self.cr == CrossoverType::Uniform(rate)
            },
    {
        if idx != best && escape_drawn {
            return Move::Escape;
        }
        let pair: Vec<usize> = distinct_indices(rng, self.lambda, 2);
        let a: usize = pair[0];
        let b: usize = pair[1];
        match self.cr {
            CrossoverType::TwoPoint => {
                let span = draw_span(rng, self.dims);
                Move::TwoPoint { a, b, span }
            },
            CrossoverType::Uniform(rate) => Move::Uniform { a, b, rate },
        }
    }
}

} // verus!
