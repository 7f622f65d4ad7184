//! Random generation of domain values for tests.

use vstd::prelude::*;

verus! {

/// A type that can produce random instances of itself.
pub trait Generator {
    /// One random instance.
    fn generate() -> Self where Self: Sized;

    /// `number` random instances.
    fn generate_many(number: usize) -> (r: Vec<Self>) where Self: Sized
        ensures
            r@.len() == number,
    {
        let mut v: Vec<Self> = Vec::new();
        while v.len() < number
            invariant
                v@.len() <= number,
            decreases number - v@.len(),
        {
            v.push(Self::generate());
        }
        v
    }

    /// Exactly `N` random instances.
    fn generate_n<const N: usize>() -> (r: Vec<Self>) where Self: Sized
        ensures
            r@.len() == N,
    {
        Self::generate_many(N)
    }
}

} // verus!
