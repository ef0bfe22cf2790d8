//! Contracts for the few outside calls the library relies on.
//!
//! Everything else in the crate is verified; each item here is believed on
//! the strength of the named function's documented behaviour.
use vstd::prelude::*;

verus! {

/// Relies on std's `String::push`: appends exactly the one character.
pub assume_specification[ String::push ](s: &mut String, c: char)
    ensures
        final(s)@ == old(s)@.push(c),
;

/// Relies on `uuid::Uuid::new_v4` and its hyphenated `Display` form: a fresh
/// random correlation token always renders as 36 characters.  Nothing more is
/// assumed of it; two calls may in principle return the same text.
#[verifier::external_body]
pub fn new_correlation_id() -> (r: String)
    ensures
        r@.len() == 36,
{
    uuid::Uuid::new_v4().to_string()
}

/// Relies on `rand::random_range`: a uniformly drawn index below `n`.
/// Only the bound is assumed; the draw itself is unconstrained.
#[verifier::external_body]
pub fn random_below(n: usize) -> (r: usize)
    requires
        n > 0,
    ensures
        r < n,
{
    rand::random_range(0..n)
}

} // verus!
