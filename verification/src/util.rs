//! Small helpers.
use vstd::prelude::*;

verus! {

/// Picks one element of a nonempty slice at random.  Which one is drawn is
/// left open; the result is always an element of the slice.
pub fn pick_one<T>(items: &[T]) -> (r: &T)
    requires
        items@.len() > 0,
    ensures
        exists|i: int| 0 <= i < items@.len() && *r == items@[i],
{
    let i = crate::extern_specs::random_below(items.len());
    let r = &items[i];
    proof {
        assert(*r == items@[i as int]);
    }
    r
}

} // verus!
