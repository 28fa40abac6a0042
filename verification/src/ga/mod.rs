//! A genetic algorithm over pluggable strategies.
//!
//! Four strategies shape the search: a [`Genome`] makes genomes and tells
//! their size, a [`Selector`] picks parents by their scores, a [`Crossover`]
//! makes a child of the parents picked, and a [`Mutator`] changes a child at
//! given positions. Strategies hold no state of their own: whatever a call
//! needs it is handed, its random stream included.
//!
//! Each strategy can say what its calls need and what they promise, in
//! predicates of its own. The predicates given here ask and promise nothing,
//! and a strategy that says nothing of itself keeps them.

pub mod crossover;
pub mod fastga;
pub mod selector;

use crate::score::Score;
use rand::rngs::StdRng;
use vstd::prelude::*;

verus! {

/// Defines genomes
pub trait Genome: Send + Sync + Clone + core::fmt::Debug {
    /// What a genome is.
    type Encoded: Send + Sync;

    /// What is promised of the size `n` reported for `encode`.
    open spec fn sized(&self, encode: &Self::Encoded, n: usize) -> bool {
        true
    }

    /// The number of genes of `encode`.
    fn size(&self, encode: &Self::Encoded) -> (n: usize)
        ensures
            self.sized(encode, n),
    ;

    /// What is promised of a fresh genome.
    open spec fn made(&self, genome: &Self::Encoded) -> bool {
        true
    }

    /// A fresh genome.
    fn new(&self, rng: &mut StdRng) -> (genome: Self::Encoded)
        ensures
            self.made(&genome),
    ;
}

/// Defines a mutator which can pointwise mutate a genome
pub trait Mutator: Send + Sync + Clone + core::fmt::Debug {
    /// What a genome is.
    type Encoded: Send + Sync;

    /// Whether `genome` can be mutated at the positions `idxs`.
    open spec fn mutable_at(&self, idxs: Seq<usize>, genome: &Self::Encoded) -> bool {
        true
    }

    /// What is promised of `after`, a mutation of `before` at the positions
    /// `idxs`.
    open spec fn mutation(
        &self,
        idxs: Seq<usize>,
        before: &Self::Encoded,
        after: &Self::Encoded,
    ) -> bool {
        true
    }

    /// Mutates `genome` at the positions `idxs`.
    fn mutate(&self, idxs: &Vec<usize>, genome: &mut Self::Encoded, rng: &mut StdRng)
        requires
            self.mutable_at(idxs@, old(genome)),
        ensures
            self.mutation(idxs@, old(genome), final(genome)),
    ;
}

/// Defines a crossover method between a set of selected parents
pub trait Crossover: Send + Sync + Clone + core::fmt::Debug {
    /// What a genome is.
    type Encoded: Send + Sync;

    /// What is promised of the number `n` of parents asked for.
    open spec fn asks_for(&self, n: int) -> bool {
        true
    }

    /// Whether `parents` can be crossed.
    open spec fn crossable(&self, parents: Seq<&Self::Encoded>) -> bool {
        true
    }

    /// What is promised of `child`, a crossing of `parents`.
    open spec fn offspring(&self, parents: Seq<&Self::Encoded>, child: &Self::Encoded) -> bool {
        true
    }

    /// Number of parents needed for crossing
    fn parents_to_select(&self) -> (n: usize)
        ensures
            self.asks_for(n as int),
    ;

    /// Creates a new offspring given a set of parents
    fn cross(&self, parents: &Vec<&Self::Encoded>, rng: &mut StdRng) -> (child: Self::Encoded)
        requires
            self.crossable(parents@),
        ensures
            self.offspring(parents@, &child),
    ;
}

/// Selection for parents
pub trait Selector: Send + Sync + Clone + core::fmt::Debug {
    /// Whether the selector is set up so that it can select.
    open spec fn usable(&self) -> bool {
        true
    }

    /// Selects a parent from the given scores, of which there is at least
    /// one: the result is the position of one of them.
    fn select(&self, fitnesses: &Vec<Score>, rng: &mut StdRng) -> (r: usize)
        requires
            self.usable(),
            fitnesses.len() > 0,
        ensures
            r < fitnesses.len(),
    ;
}

} // verus!
