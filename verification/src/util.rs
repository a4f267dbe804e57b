//! Paired values, one per sketch of an adjacent pair.

use vstd::prelude::*;
use vstd::pervasive::cloned;

verus! {

/// Paired values. Used for e.g. edge connections or paired vertex ranges
/// between sketches. `lower` and `upper` name the two rings of one adjacency
/// in stack order.
#[derive(Clone, Copy, Debug)]
pub struct SketchPair<T> {
    pub lower: T,
    pub upper: T,
}

impl<T> SketchPair<T> {
    pub fn new(lower: T, upper: T) -> (r: Self)
        ensures
            r.lower == lower,
            r.upper == upper,
    {
        Self { lower, upper }
    }

    /// Duplicate `val` to both values in the pair.
    pub fn splat(val: T) -> (r: Self) where T: Clone
        ensures
            cloned(r.upper, r.lower),
            r.upper == val,
    {
        Self { lower: val.clone(), upper: val }
    }

    pub fn as_ref(&self) -> (r: SketchPair<&T>)
        ensures
            *r.lower == self.lower,
            *r.upper == self.upper,
    {
        SketchPair { lower: &self.lower, upper: &self.upper }
    }

    pub fn as_mut(&mut self) -> (r: SketchPair<&mut T>)
        ensures
            *r.lower == old(self).lower,
            *r.upper == old(self).upper,
            final(self).lower == *final(r.lower),
            final(self).upper == *final(r.upper),
    {
        SketchPair { lower: &mut self.lower, upper: &mut self.upper }
    }

    pub fn map<F, U>(self, f: F) -> (r: SketchPair<U>) where F: Fn(T) -> U
        requires
            call_requires(f, (self.lower,)),
            call_requires(f, (self.upper,)),
        ensures
            call_ensures(f, (self.lower,), r.lower),
            call_ensures(f, (self.upper,), r.upper),
    {
        SketchPair { lower: f(self.lower), upper: f(self.upper) }
    }

    pub fn iter(&self) -> (r: Vec<&T>)
        ensures
            r@.len() == 2,
            *r@[0] == self.lower,
            *r@[1] == self.upper,
    {
        let mut v: Vec<&T> = Vec::new();
        v.push(&self.lower);
        v.push(&self.upper);
        v
    }

    pub fn zip<U>(self, other: SketchPair<U>) -> (r: SketchPair<(T, U)>)
        ensures
            r.lower == (self.lower, other.lower),
            r.upper == (self.upper, other.upper),
    {
        SketchPair { lower: (self.lower, other.lower), upper: (self.upper, other.upper) }
    }
}

} // verus!
