//! Identity of shared allocations.

use std::sync::Arc;
use vstd::prelude::*;

verus! {

/// `std::sync::Arc::ptr_eq`: whether two handles point at one allocation. Where they
/// do, they hold the same thing. When they do is left unsaid: it depends on where
/// the allocator put them, and not on what they hold.
#[verifier::external_body]
pub(crate) fn same_arc<T>(a: &Arc<T>, b: &Arc<T>) -> (r: bool)
    ensures
        r ==> a == b,
{
    Arc::ptr_eq(a, b)
}

} // verus!
