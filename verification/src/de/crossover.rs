//! The two crossover policies of the differential-evolution engine.
//!
//! A trial vector is the candidate it started from with some coordinates taken
//! from a donor vector. Two-point crossover takes a cyclic run of coordinates,
//! which is what this module is about. Uniform crossover takes each
//! coordinate or not, one by one, as `vector::blend` does.

use crate::rng::uniform_index;
use crate::vector::copy_of;
use rand::rngs::StdRng;
use vstd::prelude::*;
use vstd::set_lib::*;

verus! {

/// A cyclic run of coordinates: from `start` onwards, wrapping round at the
/// number of dimensions, up to but without `end`.
#[derive(Clone, Copy, Debug, PartialEq, Eq, Structural)]
pub struct Span {
    pub start: usize,
    pub end: usize,
}

impl Span {
    /// Both ends are coordinates of a vector of `dims` dimensions.
    pub open spec fn within(self, dims: int) -> bool {
        self.start < dims && self.end < dims
    }

    /// Coordinate `i` lies on the run.
    pub open spec fn covers(self, i: int) -> bool {
        if self.start <= self.end {
            self.start <= i < self.end
        } else {
            i >= self.start || i < self.end
        }
    }

    /// The length of the run: `end - start`, taken modulo `dims`.
    pub open spec fn width(self, dims: int) -> int {
        (self.end - self.start) % dims
    }

    /// The coordinates on the run.
    pub open spec fn indices(self, dims: int) -> Set<int> {
        Set::new(|i: int| 0 <= i < dims && self.covers(i))
    }
}

/// The run that two drawn coordinates give: when both draws are the same, the
/// end moves one on, cyclically, so that the run is a proper part of the
/// vector wherever there is more than one dimension.
pub open spec fn span_of_draws(start: usize, end: usize, dims: usize) -> Span {
    Span { start, end: if start == end { ((end + 1) % (dims as int)) as usize } else { end } }
}

/// One step round a cycle of `n` coordinates.
pub proof fn lemma_cyclic_step(i: int, n: int)
    requires
        0 <= i < n,
    ensures
        (i + 1) % n == (if i + 1 == n {
            0
        } else {
            i + 1
        }),
{
    if i + 1 == n {
        assert((i + 1) % n == 0) by (nonlinear_arith)
            requires
                i + 1 == n,
                n > 0,
        ;
    } else {
        assert((i + 1) % n == i + 1) by (nonlinear_arith)
            requires
                0 <= i + 1 < n,
        ;
    }
}

/// The run for two coordinates drawn below `dims`.
pub fn span_from(start: usize, end: usize, dims: usize) -> (span: Span)
    requires
        start < dims,
        end < dims,
    ensures
        span == span_of_draws(start, end, dims),
        span.within(dims as int),
        dims > 1 ==> span.start != span.end,
        dims == 1 ==> span.start == 0 && span.end == 0,
{
    proof {
        lemma_cyclic_step(end as int, dims as int);
    }
    if start == end {
        Span { start, end: (end + 1) % dims }
    } else {
        Span { start, end }
    }
}

/// Draws the two ends of a run, uniformly and independently, and makes the
/// run of them. With one dimension the run is empty. Otherwise it never is,
/// and never is the whole vector.
pub fn draw_span(rng: &mut StdRng, dims: usize) -> (span: Span)
    requires
        dims > 0,
    ensures
        span.within(dims as int),
        dims > 1 ==> span.start != span.end,
        dims == 1 ==> span.start == 0 && span.end == 0,
{
    let start: usize = uniform_index(rng, 0, dims);
    let end: usize = uniform_index(rng, 0, dims);
    span_from(start, end, dims)
}

/// The trial of two-point crossover: the donor's coordinates on the run, the
/// candidate's own everywhere else.
pub open spec fn spliced<T>(orig: Seq<T>, donor: Seq<T>, span: Span) -> Seq<T> {
    Seq::new(
        orig.len(),
        |i: int|
            if span.covers(i) {
                donor[i]
            } else {
                orig[i]
            },
    )
}

/// Two-point crossover of `orig` with `donor` over `span`.
pub fn splice<T: Copy>(orig: &Vec<T>, donor: &Vec<T>, span: Span) -> (trial: Vec<T>)
    requires
        orig.len() == donor.len(),
        span.within(orig.len() as int),
    ensures
        trial@ == spliced(orig@, donor@, span),
{
    let dims: usize = orig.len();
    let mut trial: Vec<T> = copy_of(orig);
    let mut cur: usize = span.start;
    while cur != span.end
        invariant
            dims == orig.len(),
            dims == donor.len(),
            trial.len() == dims,
            span.within(dims as int),
            cur < dims,
            span.start <= span.end ==> span.start <= cur <= span.end,
            span.start > span.end ==> cur >= span.start || cur <= span.end,
            forall|i: int|
                0 <= i < dims ==> trial[i] == (if (Span { start: span.start, end: cur }).covers(i) {
                    donor[i]
                } else {
                    orig[i]
                }),
        decreases
                (if cur <= span.end {
                    span.end - cur
                } else {
                    dims - cur + span.end
                }),
    {
        proof {
            lemma_cyclic_step(cur as int, dims as int);
        }
        trial.set(cur, donor[cur]);
        cur = (cur + 1) % dims;
    }
    assert(trial@ =~= spliced(orig@, donor@, span));
    trial
}

/// A run covers exactly as many coordinates as the cyclic distance from its
/// start to its end; with more than one dimension a run whose ends differ
/// covers at least one coordinate and leaves at least one out.
pub proof fn lemma_span_count(span: Span, dims: int)
    requires
        span.within(dims),
    ensures
        span.indices(dims).finite(),
        span.indices(dims).len() == span.width(dims),
        span.start != span.end ==> 0 < span.indices(dims).len() < dims,
        span.start == span.end ==> span.indices(dims).len() == 0,
{
    let s = span.start as int;
    let e = span.end as int;
    if s <= e {
        lemma_int_range(s, e);
        assert(span.indices(dims) =~= set_int_range(s, e));
        assert((e - s) % dims == e - s) by (nonlinear_arith)
            requires
                0 <= e - s < dims,
        ;
    } else {
        lemma_int_range(s, dims);
        lemma_int_range(0, e);
        let high = set_int_range(s, dims);
        let low = set_int_range(0, e);
        assert(high.disjoint(low));
        lemma_set_disjoint_lens(high, low);
        assert(span.indices(dims) =~= high + low);
        assert((e - s) % dims == e - s + dims) by (nonlinear_arith)
            requires
                0 <= e - s + dims < dims,
        ;
    }
}

/// Where the donor differs from the candidate in every coordinate, the trial
/// of two-point crossover differs from the candidate in exactly the
/// coordinates of the run: as many as the cyclic distance from start to end,
/// and with more than one dimension neither none nor all of them.
pub proof fn lemma_trial_differs<T>(orig: Seq<T>, donor: Seq<T>, span: Span)
    requires
        orig.len() == donor.len(),
        span.within(orig.len() as int),
        forall|i: int| 0 <= i < orig.len() ==> donor[i] != orig[i],
    ensures
        Set::new(|i: int| 0 <= i < orig.len() && spliced(orig, donor, span)[i] != orig[i])
            == span.indices(orig.len() as int),
        span.indices(orig.len() as int).len() == span.width(orig.len() as int),
        span.start != span.end ==> 0 < span.indices(orig.len() as int).len() < orig.len(),
{
    lemma_span_count(span, orig.len() as int);
    assert(Set::new(|i: int| 0 <= i < orig.len() && spliced(orig, donor, span)[i] != orig[i])
        =~= span.indices(orig.len() as int));
}

} // verus!
