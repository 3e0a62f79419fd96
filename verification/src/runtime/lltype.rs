//! Allocation of leaves.

use crate::runtime::heap::{allocated_in, CelHeap};
use crate::runtime::object::{CelObject, Place};
use crate::runtime::object_array::lemma_word_align;
use vstd::prelude::*;

verus! {

/// The header of a leaf of `size` bytes, allocated where the heap allocates now.
pub fn malloc_typed(heap: &mut CelHeap, size: usize) -> (r: CelObject)
    requires
        old(heap).wf(),
        0 < size <= isize::MAX - 8,
    ensures
        final(heap).grown_from(old(heap)),
        allocated_in(old(heap), final(heap), size as int, 8, r.at),
        final(heap).live(r.at),
{
    proof {
        lemma_word_align();
    }
    CelObject { at: heap.alloc_raw(size, 8) }
}

/// [`malloc_typed`] for leaves that a collector would manage.
pub fn malloc_typed_managed(heap: &mut CelHeap, size: usize) -> (r: CelObject)
    requires
        old(heap).wf(),
        0 < size <= isize::MAX - 8,
    ensures
        final(heap).grown_from(old(heap)),
        allocated_in(old(heap), final(heap), size as int, 8, r.at),
        final(heap).live(r.at),
{
    malloc_typed(heap, size)
}

/// The header of prebuilt object `number`, which no heap holds.
pub fn malloc_typed_immortal(number: u32) -> (r: CelObject)
    ensures
        r.at == Place::Immortal(number),
{
    CelObject { at: Place::Immortal(number) }
}

} // verus!
