//! Moving coordinates between vectors of equal length.
//!
//! The engines recombine candidates coordinate by coordinate. Which coordinate
//! comes from which vector is all that is decided here; the element type is
//! the caller's.

use vstd::prelude::*;

verus! {

/// `orig` with the coordinates at which `take` holds replaced by `donor`'s.
pub open spec fn blended<T>(orig: Seq<T>, donor: Seq<T>, take: Seq<bool>) -> Seq<T> {
    Seq::new(
        orig.len(),
        |i: int|
            if take[i] {
                donor[i]
            } else {
                orig[i]
            },
    )
}

/// `orig` with the coordinates from `from` up to but without `to` replaced by
/// `donor`'s.
pub open spec fn grafted<T>(orig: Seq<T>, donor: Seq<T>, from: int, to: int) -> Seq<T> {
    Seq::new(
        orig.len(),
        |i: int|
            if from <= i < to {
                donor[i]
            } else {
                orig[i]
            },
    )
}

/// A copy of a vector.
pub fn copy_of<T: Copy>(v: &Vec<T>) -> (r: Vec<T>)
    ensures
        r@ == v@,
{
    let mut r: Vec<T> = Vec::with_capacity(v.len());
    let mut i: usize = 0;
    while i < v.len()
        invariant
            i <= v.len(),
            r.len() == i,
            forall|j: int| 0 <= j < i ==> r[j] == v[j],
        decreases v.len() - i,
    {
        r.push(v[i]);
        i += 1;
    }
    assert(r@ =~= v@);
    r
}

/// A vector of `len` coordinates, each of them `value`.
pub fn filled<T: Copy>(value: T, len: usize) -> (r: Vec<T>)
    ensures
        r@ == Seq::new(len as nat, |i: int| value),
{
    let mut r: Vec<T> = Vec::with_capacity(len);
    let mut i: usize = 0;
    while i < len
        invariant
            i <= len,
            r.len() == i,
            forall|j: int| 0 <= j < i ==> r[j] == value,
        decreases len - i,
    {
        r.push(value);
        i += 1;
    }
    assert(r@ =~= Seq::new(len as nat, |i: int| value));
    r
}

/// Takes from `donor` every coordinate at which `take` holds, and the others
/// from `orig`.
pub fn blend<T: Copy>(orig: &Vec<T>, donor: &Vec<T>, take: &Vec<bool>) -> (r: Vec<T>)
    requires
        orig.len() == donor.len(),
        orig.len() == take.len(),
    ensures
        r@ == blended(orig@, donor@, take@),
{
    let mut r: Vec<T> = Vec::with_capacity(orig.len());
    let mut i: usize = 0;
    while i < orig.len()
        invariant
            i <= orig.len(),
            orig.len() == donor.len(),
            orig.len() == take.len(),
            r.len() == i,
            forall|j: int| 0 <= j < i ==> r[j] == (if take[j] { donor[j] } else { orig[j] }),
        decreases orig.len() - i,
    {
        if take[i] {
            r.push(donor[i]);
        } else {
            r.push(orig[i]);
        }
        i += 1;
    }
    assert(r@ =~= blended(orig@, donor@, take@));
    r
}

/// Takes from `donor` the coordinates from `from` up to but without `to`, and
/// the others from `orig`.
pub fn graft<T: Copy>(orig: &Vec<T>, donor: &Vec<T>, from: usize, to: usize) -> (r: Vec<T>)
    requires
        orig.len() == donor.len(),
    ensures
        r@ == grafted(orig@, donor@, from as int, to as int),
{
    let mut r: Vec<T> = Vec::with_capacity(orig.len());
    let mut i: usize = 0;
    while i < orig.len()
        invariant
            i <= orig.len(),
            orig.len() == donor.len(),
            r.len() == i,
            forall|j: int| 0 <= j < i ==> r[j] == (if from <= j < to { donor[j] } else { orig[j] }),
        decreases orig.len() - i,
    {
        if from <= i && i < to {
            r.push(donor[i]);
        } else {
            r.push(orig[i]);
        }
        i += 1;
    }
    assert(r@ =~= grafted(orig@, donor@, from as int, to as int));
    r
}

} // verus!
