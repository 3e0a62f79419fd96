//! The blocks that variable-length leaves hold their contents in.

use crate::runtime::heap::{allocated_in, is_align, CelHeap};
use crate::runtime::object::{clone_ref, CelRef, Place};
use std::sync::Arc;
use vstd::prelude::*;

verus! {

/// The layout of a block: where its items begin, how large one is, and where the
/// word stands that counts them.
#[derive(Clone, Copy, Debug, PartialEq, Eq, Structural)]
pub struct ArrayToken {
    pub base_size: usize,
    pub item_size: usize,
    pub len_offset: usize,
}

/// The layout of a block of references.
pub fn items_block_token() -> (r: ArrayToken)
    ensures
        r == (ArrayToken { base_size: 8, item_size: 8, len_offset: 0 }),
{
    ArrayToken { base_size: 8, item_size: 8, len_offset: 0 }
}

/// The layout of a block of bytes.
pub fn bytes_block_token() -> (r: ArrayToken)
    ensures
        r == (ArrayToken { base_size: 8, item_size: 1, len_offset: 0 }),
{
    ArrayToken { base_size: 8, item_size: 1, len_offset: 0 }
}

/// A fixed block of references.
#[derive(Debug)]
pub struct CelItemsBlock {
    pub(crate) slots: Vec<CelRef>,
}

/// A fixed block of bytes.
#[derive(Debug)]
pub struct CelBytesBlock {
    pub(crate) bytes: Arc<Vec<u8>>,
}

/// The bytes that a block of `cap` items takes. No block is larger than the
/// address space allows.
pub open spec fn block_bytes(base: int, item: int, cap: int) -> int {
    if base + item * cap <= isize::MAX - 8 {
        base + item * cap
    } else {
        isize::MAX - 8
    }
}

fn block_size(token: ArrayToken, cap: usize) -> (r: usize)
    requires
        0 < token.item_size <= 8,
        token.base_size == 8,
    ensures
        r == block_bytes(token.base_size as int, token.item_size as int, cap as int),
        0 < r <= isize::MAX - 8,
{
    let most: usize = (isize::MAX as usize) - 8;
    let room: usize = (most - token.base_size) / token.item_size;
    proof {
        let i = token.item_size as int;
        let c = cap as int;
        let m = most - token.base_size;
        vstd::arithmetic::div_mod::lemma_fundamental_div_mod(m, i);
        if c <= room {
            assert(i * c <= i * room) by (nonlinear_arith)
                requires
                    c <= room,
                    i >= 0,
            ;
        } else {
            assert(i * c >= i * (room + 1)) by (nonlinear_arith)
                requires
                    c >= room + 1,
                    i >= 0,
            ;
            assert(i * (room + 1) == i * room + i) by (nonlinear_arith);
        }
    }
    if cap <= room {
        assert(token.item_size * cap <= most - token.base_size);
        token.base_size + token.item_size * cap
    } else {
        most
    }
}

/// Eight is an alignment.
pub proof fn lemma_word_align()
    ensures
        is_align(8),
{
    vstd::arithmetic::power2::lemma2_to64();
    assert(8usize == vstd::arithmetic::power2::pow2(3));
}

/// A heap that grew by a block of `size` bytes, in the space that it allocates in.
pub open(crate) spec fn reserved(before: &CelHeap, after: &CelHeap, size: int) -> bool {
    &&& after.grown_from(before)
    &&& exists|at: Place| allocated_in(before, after, size, 8, at)
}

/// Reserve a block of `cap` items.
fn alloc_block(heap: &mut CelHeap, token: ArrayToken, cap: usize)
    requires
        old(heap).wf(),
        0 < token.item_size <= 8,
        token.base_size == 8,
    ensures
        final(heap).grown_from(old(heap)),
        reserved(
            old(heap),
            final(heap),
            block_bytes(token.base_size as int, token.item_size as int, cap as int),
        ),
{
    proof {
        lemma_word_align();
    }
    let size: usize = block_size(token, cap);
    let at = heap.alloc_raw(size, 8);
    assert(allocated_in(old(heap), heap, size as int, 8, at));
}

/// A block that holds `values`.
pub fn new_items_block(heap: &mut CelHeap, values: &Vec<CelRef>) -> (r: CelItemsBlock)
    requires
        old(heap).wf(),
    ensures
        final(heap).grown_from(old(heap)),
        reserved(old(heap), final(heap), block_bytes(8, 8, values@.len() as int)),
        items_of(r) == values@,
{
    alloc_block(heap, items_block_token(), values.len());
    let mut slots: Vec<CelRef> = Vec::new();
    let mut i: usize = 0;
    while i < values.len()
        invariant
            i <= values@.len(),
            slots@ == values@.take(i as int),
        decreases values@.len() - i,
    {
        slots.push(clone_ref(&values[i]));
        assert(slots@ =~= values@.take(i + 1));
        i = i + 1;
    }
    assert(slots@ =~= values@);
    CelItemsBlock { slots }
}

/// A block of `cap` references to nothing.
pub fn new_items_block_zeroed(heap: &mut CelHeap, cap: usize) -> (r: CelItemsBlock)
    requires
        old(heap).wf(),
    ensures
        final(heap).grown_from(old(heap)),
        reserved(old(heap), final(heap), block_bytes(8, 8, cap as int)),
        items_of(r).len() == cap,
        forall|i: int| 0 <= i < cap ==> (#[trigger] items_of(r)[i]) is None,
{
    alloc_block(heap, items_block_token(), cap);
    let mut slots: Vec<CelRef> = Vec::new();
    let mut i: usize = 0;
    while i < cap
        invariant
            i <= cap,
            slots@.len() == i,
            forall|j: int| 0 <= j < i ==> (#[trigger] slots@[j]) is None,
        decreases cap - i,
    {
        slots.push(None);
        i = i + 1;
    }
    CelItemsBlock { slots }
}

/// A block that holds `bytes`.
pub fn new_bytes_block(heap: &mut CelHeap, bytes: &Arc<Vec<u8>>) -> (r: CelBytesBlock)
    requires
        old(heap).wf(),
    ensures
        final(heap).grown_from(old(heap)),
        reserved(old(heap), final(heap), block_bytes(8, 1, bytes@.len() as int)),
        bytes_of(r) == bytes@,
{
    alloc_block(heap, bytes_block_token(), bytes.len());
    CelBytesBlock { bytes: bytes.clone() }
}

/// Reserve a block for `n` bytes that are held elsewhere.
pub(crate) fn reserve_bytes(heap: &mut CelHeap, n: usize)
    requires
        old(heap).wf(),
    ensures
        final(heap).grown_from(old(heap)),
        reserved(old(heap), final(heap), block_bytes(8, 1, n as int)),
{
    alloc_block(heap, bytes_block_token(), n)
}

/// Reserve memory for `n` words that are held elsewhere.
pub(crate) fn reserve_words(heap: &mut CelHeap, n: usize)
    requires
        old(heap).wf(),
    ensures
        final(heap).grown_from(old(heap)),
        reserved(old(heap), final(heap), block_bytes(8, 8, n as int)),
{
    alloc_block(heap, items_block_token(), n)
}

/// The references of a block.
pub open(crate) spec fn items_of(block: CelItemsBlock) -> Seq<CelRef> {
    block.slots@
}

/// The bytes of a block.
pub open(crate) spec fn bytes_of(block: CelBytesBlock) -> Seq<u8> {
    block.bytes@
}

/// The references of a block.
pub fn items_block_items_base(block: &CelItemsBlock) -> (r: &Vec<CelRef>)
    ensures
        r@ == items_of(*block),
{
    &block.slots
}

/// The bytes of a block.
pub fn bytes_base(block: &CelBytesBlock) -> (r: &Vec<u8>)
    ensures
        r@ == bytes_of(*block),
{
    &block.bytes
}

/// How many references a block has room for.
pub fn items_capacity(block: &CelItemsBlock) -> (r: usize)
    ensures
        r == items_of(*block).len(),
{
    block.slots.len()
}

/// How many bytes a block has room for.
pub fn bytes_capacity(block: &CelBytesBlock) -> (r: usize)
    ensures
        r == bytes_of(*block).len(),
{
    block.bytes.len()
}

} // verus!
