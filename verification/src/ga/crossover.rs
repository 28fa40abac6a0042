//! Crossover of two genomes that are lists of genes.

use crate::ga::Crossover;
use crate::rng::{fair_coin, uniform_index};
use crate::vector::{blend, blended, graft, grafted};
use core::marker::PhantomData;
use rand::rngs::StdRng;
use vstd::prelude::*;

verus! {

/// Which genes of the second parent a child gets.
#[derive(Copy, Clone, Debug, PartialEq, Eq, Structural)]
pub enum CrossoverType {
    /// Uniform over the entire genome
    Binomial,
    /// Choose one point and crosses the genome: everything from the point on.
    OnePoint,
    /// Swaps a contiguous portion of one to the other.
    TwoPoint,
}

/// Crossover of two parents that are lists of genes of equal length: the
/// child is the first parent with some genes of the second.
#[derive(Debug)]
pub struct Linear<A>(CrossoverType, PhantomData<A>);

impl<A> Clone for Linear<A> {
    fn clone(&self) -> (copy: Self)
        ensures
            copy.kind() == self.kind(),
    {
        Linear(self.0, PhantomData)
    }
}

impl<A> Linear<A> {
    /// The kind of crossover.
    pub closed spec fn kind(&self) -> CrossoverType {
        self.0
    }

    /// A crossover of the given kind.
    pub fn new(ct: CrossoverType) -> (r: Self)
        ensures
            r.kind() == ct,
    {
        Linear(ct, PhantomData)
    }

    /// The kind of crossover.
    pub fn crossover_type(&self) -> (ct: CrossoverType)
        ensures
            ct == self.kind(),
    {
        self.0
    }
}

/// The least length of parents that a kind of crossover can cut: one-point
/// crossover cuts strictly inside, leaving at least one gene on either side
/// of the cut and not taking the last alone.
pub open spec fn least_length(ct: CrossoverType) -> int {
    match ct {
        CrossoverType::Binomial => 0,
        CrossoverType::OnePoint => 3,
        CrossoverType::TwoPoint => 2,
    }
}

/// `child` is a crossover of kind `ct` of `p1` with `p2`.
pub open spec fn is_cross_of<A>(ct: CrossoverType, p1: Seq<A>, p2: Seq<A>, child: Seq<A>) -> bool {
    match ct {
        CrossoverType::Binomial => exists|take: Seq<bool>|
            take.len() == p1.len() && child == #[trigger] blended(p1, p2, take),
        CrossoverType::OnePoint => exists|cut: int|
            1 <= cut < p1.len() - 1 && child == #[trigger] grafted(p1, p2, cut, p1.len() as int),
        CrossoverType::TwoPoint => exists|start: int, stop: int|
            0 <= start < stop < p1.len() && child == #[trigger] grafted(p1, p2, start, stop),
    }
}

impl<A: Copy + Send + Sync + core::fmt::Debug> Crossover for Linear<A> {
    type Encoded = Vec<A>;

    /// Two parents are asked for.
    open spec fn asks_for(&self, n: int) -> bool {
        n == 2
    }

    /// Two parents or more, the first two of one length, which is long
    /// enough for the kind of crossover.
    open spec fn crossable(&self, parents: Seq<&Vec<A>>) -> bool {
        &&& parents.len() >= 2
        &&& parents[0].len() == parents[1].len()
        &&& parents[0].len() >= least_length(self.kind())
    }

    /// The child is as long as the first parent and is a crossover of the
    /// configured kind of the first two parents.
    open spec fn offspring(&self, parents: Seq<&Vec<A>>, child: &Vec<A>) -> bool {
        &&& child.len() == parents[0].len()
        &&& is_cross_of(self.kind(), parents[0]@, parents[1]@, child@)
    }

    /// Number of parents needed for crossing
    fn parents_to_select(&self) -> (n: usize) {
        2
    }

    /// Creates a new offspring given a set of parents: the first parent with
    /// genes of the second. Binomial crossover takes each gene of the second
    /// on a fair coin. One-point crossover takes all genes from a cut on, the
    /// cut drawn strictly inside the genome and before its last gene.
    /// Two-point crossover takes the genes between two cuts, of which there
    /// is at least one.
    fn cross(&self, parents: &Vec<&Vec<A>>, rng: &mut StdRng) -> (child: Vec<A>) {
        let p1: &Vec<A> = parents[0];
        let p2: &Vec<A> = parents[1];
        let len: usize = p1.len();
        match self.0 {
            CrossoverType::Binomial => {
                let mut take: Vec<bool> = Vec::with_capacity(len);
                let mut i: usize = 0;
                while i < len
                    invariant
                        i <= len,
                        take.len() == i,
                    decreases len - i,
                {
                    take.push(fair_coin(rng));
                    i += 1;
                }
                let child = blend(p1, p2, &take);
                assert(child@ == blended(p1@, p2@, take@));
                child
            },
            CrossoverType::OnePoint => {
                let cut: usize = uniform_index(rng, 1, len - 1);
                let child = graft(p1, p2, cut, len);
                assert(child@ == grafted(p1@, p2@, cut as int, len as int));
                child
            },
            CrossoverType::TwoPoint => {
                let start: usize = uniform_index(rng, 0, len - 1);
                let stop: usize = uniform_index(rng, start + 1, len);
                let child = graft(p1, p2, start, stop);
                assert(child@ == grafted(p1@, p2@, start as int, stop as int));
                child
            },
        }
    }
}

} // verus!
