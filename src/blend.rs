//! Blend functions for combining a source element with a destination element.

use vstd::prelude::*;

verus! {

/// Discards both elements, returning the destination type's default value.
pub fn clear<S, D: Default>(src: S, dst: D) -> (r: D)
    ensures
        call_ensures(D::default, (), r),
{
    D::default()
}

/// Keeps the source element.
pub fn source<S, D>(src: S, dst: D) -> (r: S)
    ensures
        r == src,
{
    src
}

/// Keeps the destination element.
pub fn destination<S, D>(src: S, dst: D) -> (r: D)
    ensures
        r == dst,
{
    dst
}

} // verus!
