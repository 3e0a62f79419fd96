//! What the heap hands out, keeps and gives back.

use crate::runtime::heap::{
    assert_frame_cell, enter_eval_on, is_forcing_old, is_immortal, region_from, region_sum,
    reservations_are_aligned_and_disjoint, saturating, with_bind_region, with_old_space, BindRegion,
    BindRegionSlot, CelHeap, EvalScope, HostIndex,
};
use crate::runtime::object::{CelRef, Host, Place, VableStack, W_CelFrame};
use crate::value::Value;
use vstd::arithmetic::power2::lemma_pow2_pos;
use vstd::prelude::*;

verus! {

/// A new heap holds nothing, and no evaluation runs in it.
pub proof fn a_new_heap_is_empty(
    h: CelHeap,
    at: Place,
    alive: bool,
    objects: u64,
    bytes: u64,
    depth: u32,
    peak: u64,
    requests: u32,
)
    requires
        call_ensures(CelHeap::new, (), h),
        call_ensures(CelHeap::contains, (&h, at), alive),
        call_ensures(CelHeap::allocated_objects, (&h,), objects),
        call_ensures(CelHeap::allocated_bytes, (&h,), bytes),
        call_ensures(CelHeap::eval_depth, (&h,), depth),
        call_ensures(CelHeap::nursery_high_water, (&h,), peak),
        call_ensures(CelHeap::old_requests, (&h,), requests),
    ensures
        !alive,
        objects == 0,
        bytes == 0,
        depth == 0,
        peak == 0,
        requests == 0,
{
}

/// What is allocated is alive, at a multiple of its alignment, and where nothing was alive
/// before; what was alive before still is.
pub proof fn what_is_allocated_is_alive(
    h: &mut CelHeap,
    bytes: usize,
    align: usize,
    at: Place,
    before: bool,
    after: bool,
    p: Place,
    was: bool,
    is: bool,
)
    requires
        old(h).wf(),
        0 < bytes,
        crate::runtime::heap::is_align(align),
        bytes + align <= isize::MAX,
        call_ensures(CelHeap::alloc_raw, (h, bytes, align), at),
        call_ensures(CelHeap::contains, (&*old(h), at), before),
        call_ensures(CelHeap::contains, (&*final(h), at), after),
        call_ensures(CelHeap::contains, (&*old(h), p), was),
        call_ensures(CelHeap::contains, (&*final(h), p), is),
    ensures
        after,
        !before,
        was ==> is,
        match at {
            Place::Young(_, o) | Place::Old(_, o) | Place::Region(_, _, o) => o as int
                % align as int == 0,
            _ => false,
        },
{
    let k = choose|k: nat| align == vstd::arithmetic::power2::pow2(k);
    lemma_pow2_pos(k);
    let (b, a) = (*old(h), *final(h));
    match at {
        Place::Young(s, o) => {
            reservations_are_aligned_and_disjoint(
                b.nursery_space().segs(),
                a.nursery_space().segs(),
                bytes as int,
                align as int,
                (s, o),
            );
        },
        Place::Old(s, o) => {
            reservations_are_aligned_and_disjoint(
                b.old_space().segs(),
                a.old_space().segs(),
                bytes as int,
                align as int,
                (s, o),
            );
        },
        Place::Region(id, s, o) => {
            let r = region_from(b.live_regions(), id, 0);
            crate::runtime::heap::lemma_region_from(b.live_regions(), id, 0);
            reservations_are_aligned_and_disjoint(
                b.live_regions()[r].contents().segs(),
                a.live_regions()[r].contents().segs(),
                bytes as int,
                align as int,
                (s, o),
            );
        },
        _ => {},
    }
}

/// While an evaluation runs, allocations are young, unless old space is asked for; outside
/// evaluations they are not, and what is asked for in old space is old.
pub proof fn allocations_are_young_in_evaluations(
    h: &mut CelHeap,
    g: &mut CelHeap,
    bytes: usize,
    align: usize,
    at: Place,
    old_at: Place,
    depth: u32,
    forcing: bool,
)
    requires
        call_ensures(CelHeap::alloc_raw, (h, bytes, align), at),
        call_ensures(CelHeap::alloc_old_raw, (g, bytes, align), old_at),
        call_ensures(CelHeap::eval_depth, (&*old(h),), depth),
        call_ensures(is_forcing_old, (&*old(h),), forcing),
    ensures
        at is Young <==> depth > 0 && !forcing,
        old_at is Old,
{
}

/// An allocation counts as one object of its bytes.
pub proof fn allocations_are_counted(
    h: &mut CelHeap,
    bytes: usize,
    align: usize,
    at: Place,
)
    requires
        call_ensures(CelHeap::alloc_raw, (h, bytes, align), at),
        old(h).nursery_space().object_count() < u64::MAX,
        old(h).nursery_space().byte_count() + bytes <= u64::MAX,
        old(h).old_space().object_count() < u64::MAX,
        old(h).old_space().byte_count() + bytes <= u64::MAX,
    ensures
        at is Young ==> {
            let (b, a) = (old(h).nursery_space(), final(h).nursery_space());
            &&& a.object_count() == b.object_count() + 1
            &&& a.byte_count() == b.byte_count() + bytes
            &&& final(h).old_space() == old(h).old_space()
        },
        at is Old ==> {
            let (b, a) = (old(h).old_space(), final(h).old_space());
            &&& a.object_count() == b.object_count() + 1
            &&& a.byte_count() == b.byte_count() + bytes
            &&& final(h).nursery_space() == old(h).nursery_space()
        },
{
}

/// Evaluations nest: beginning one makes them one deeper and ending it one less deep. The
/// outermost is the one that began when none ran.
pub proof fn evaluations_nest(
    h: &mut CelHeap,
    g: &mut CelHeap,
    first: bool,
    outermost: bool,
    scope: EvalScope,
    k: &mut CelHeap,
    is_outermost: bool,
)
    requires
        call_ensures(CelHeap::enter, (h,), first),
        call_ensures(CelHeap::leave, (g, outermost), ()),
        call_ensures(enter_eval_on, (k,), scope),
        call_ensures(EvalScope::is_outermost, (&scope,), is_outermost),
    ensures
        final(h).eval_depth_of() == old(h).eval_depth_of() + 1,
        first == (old(h).eval_depth_of() == 0),
        final(g).eval_depth_of() == old(g).eval_depth_of() - 1,
        final(k).eval_depth_of() == old(k).eval_depth_of() + 1,
        is_outermost == (old(k).eval_depth_of() == 0),
{
}

/// Beginning an evaluation leaves alive what is alive. Ending the outermost one takes what
/// is young and leaves the rest; ending a nested one takes nothing.
pub proof fn the_outermost_evaluation_takes_what_is_young(
    h: &mut CelHeap,
    g: &mut CelHeap,
    first: bool,
    outermost: bool,
    at: Place,
    a: bool,
    b: bool,
    c: bool,
    d: bool,
)
    requires
        call_ensures(CelHeap::enter, (h,), first),
        call_ensures(CelHeap::contains, (&*old(h), at), a),
        call_ensures(CelHeap::contains, (&*final(h), at), b),
        call_ensures(CelHeap::leave, (g, outermost), ()),
        call_ensures(CelHeap::contains, (&*old(g), at), c),
        call_ensures(CelHeap::contains, (&*final(g), at), d),
    ensures
        a == b,
        old(g).eval_depth_of() == 1 ==> d == (c && !(at is Young)),
        old(g).eval_depth_of() > 1 ==> d == c,
{
}

/// The value of an evaluation is what it was, in public form, and abandoning one ends it as
/// finishing does.
pub proof fn an_evaluation_hands_out_its_value(
    h: &mut CelHeap,
    g: &mut CelHeap,
    scope: EvalScope,
    v: Value,
    r: Value,
)
    requires
        call_ensures(EvalScope::finish, (scope, h, v), r),
        call_ensures(EvalScope::abandon, (scope, g), ()),
    ensures
        r@ == v@,
        !(r is Interned),
        final(h).eval_depth_of() == old(h).eval_depth_of() - 1,
        final(g).eval_depth_of() == old(g).eval_depth_of() - 1,
        old(h).eval_depth_of() == 1 ==> forall|at: Place|
            at is Young ==> !(#[trigger] final(h).live(at)),
{
}

/// A host that is parked is found in its slot, and what was parked before is found in its
/// own.
pub proof fn a_parked_host_is_found(
    h: &mut CelHeap,
    host: Host,
    idx: HostIndex,
    found: Option<&Host>,
    other: HostIndex,
    before: Option<&Host>,
    after: Option<&Host>,
)
    requires
        call_ensures(CelHeap::push_host, (h, host), idx),
        call_ensures(CelHeap::host, (&*final(h), idx), found),
        call_ensures(CelHeap::host, (&*old(h), other), before),
        call_ensures(CelHeap::host, (&*final(h), other), after),
    ensures
        found matches Some(x) && *x == host,
        before matches Some(x) ==> (after matches Some(y) && *x == *y),
{
}

/// A request for old space is open until it is released.
pub proof fn requests_for_old_space_are_counted(
    h: &mut CelHeap,
    g: &mut CelHeap,
    n: u32,
    forcing: bool,
    at: Place,
)
    requires
        call_ensures(CelHeap::request_old, (h,), ()),
        old(h).forced() < u32::MAX,
        call_ensures(CelHeap::release_old, (g,), ()),
        call_ensures(CelHeap::old_requests, (&*final(h),), n),
        call_ensures(is_forcing_old, (&*final(h),), forcing),
    ensures
        n == old(h).forced() + 1,
        forcing,
        final(g).forced() == if old(g).forced() > 0 {
            old(g).forced() - 1
        } else {
            0
        },
        final(h).live(at) == old(h).live(at),
        final(g).live(at) == old(g).live(at),
{
}

/// A slot that has a region keeps it, and one that has none gets one of a number that no
/// region had. What is alive stays alive.
pub proof fn a_slot_keeps_its_region(
    slot: &mut BindRegionSlot,
    h: &mut CelHeap,
    id: u64,
    none: bool,
    none_after: bool,
    at: Place,
)
    requires
        old(h).wf(),
        call_ensures(BindRegionSlot::get_or_insert, (slot, h), id),
        call_ensures(BindRegionSlot::is_none, (&*old(slot),), none),
        call_ensures(BindRegionSlot::is_none, (&*final(slot),), none_after),
    ensures
        !none_after,
        final(slot).region() == Some(id),
        !none ==> old(slot).region() == Some(id) && *final(h) == *old(h),
        none ==> region_from(old(h).live_regions(), id, 0) == -1,
        none ==> region_from(final(h).live_regions(), id, 0) >= 0,
        !(at is Region) ==> final(h).live(at) == old(h).live(at),
{
    if none {
        crate::runtime::heap::lemma_region_from(old(h).live_regions(), id, 0);
        crate::runtime::heap::lemma_region_from(final(h).live_regions(), id, 0);
        assert(final(h).live_regions().last().region_id() == id);
    }
}

/// A region that is given back is gone, with what it held; everything else is alive as it
/// was.
pub proof fn a_released_region_is_gone(
    slot: BindRegionSlot,
    h: &mut CelHeap,
    at: Place,
    after: bool,
)
    requires
        call_ensures(BindRegionSlot::release, (slot, h), ()),
        call_ensures(CelHeap::contains, (&*final(h), at), after),
    ensures
        slot.region() matches Some(id) ==> (at matches Place::Region(r, _, _) && r == id ==> !after),
        !(at is Region) ==> after == old(h).live(at),
        slot.region() is None ==> *final(h) == *old(h),
{
}

/// A cell of an activation record refers to what it was made to refer to, and the others to
/// what they did. A record that is kept for reuse is taken where it has room.
pub proof fn cells_refer_to_what_they_were_set_to(
    stack: &mut VableStack,
    i: usize,
    w: CelRef,
    j: usize,
    r: CelRef,
    region: &mut BindRegion,
    frame: W_CelFrame,
    other: &mut BindRegion,
    need: usize,
    taken: Option<W_CelFrame>,
)
    requires
        i < old(stack).cells(),
        j < old(stack).cells(),
        call_ensures(VableStack::set, (stack, i, w), ()),
        call_ensures(VableStack::get, (&*final(stack), j), r),
        call_ensures(BindRegion::store_eval_frame, (region, frame), ()),
        *old(other) == *final(region),
        call_ensures(BindRegion::take_eval_frame, (other, need), taken),
    ensures
        r == if j == i {
            w
        } else {
            old(stack).cell(j as int)
        },
        taken == if frame.locals_stack_w.cells() >= need {
            Some(frame)
        } else {
            None
        },
{
}

/// An allocation adds its bytes and one object to what the heap has given out, wherever it
/// is made.
pub proof fn allocations_add_up(
    h: &mut CelHeap,
    bytes: usize,
    align: usize,
    at: Place,
    b: u64,
    a: u64,
    n: u64,
    m: u64,
)
    requires
        old(h).wf(),
        call_ensures(CelHeap::alloc_raw, (h, bytes, align), at),
        call_ensures(CelHeap::allocated_bytes, (&*old(h),), b),
        call_ensures(CelHeap::allocated_bytes, (&*final(h),), a),
        call_ensures(CelHeap::allocated_objects, (&*old(h),), n),
        call_ensures(CelHeap::allocated_objects, (&*final(h),), m),
        b + bytes < u64::MAX,
        n + 1 < u64::MAX,
    ensures
        a == b + bytes,
        m == n + 1,
{
    let (before, after) = (old(h).live_regions(), final(h).live_regions());
    lemma_sum_is_counted(before, before.len(), true);
    lemma_sum_is_counted(before, before.len(), false);
    if !old(h).allocates_young() && old(h).filling() != 0 {
        let r = region_from(before, old(h).filling(), 0);
        lemma_region_found(before, old(h).filling(), 0);
        lemma_sum_grows(before, after, r, before.len(), bytes as int, true);
        lemma_sum_grows(before, after, r, before.len(), 1, false);
    } else {
        assert(before =~= after);
    }
}

proof fn lemma_sum_is_counted(regions: Seq<BindRegion>, n: nat, bytes: bool)
    ensures
        0 <= region_sum(regions, n, bytes) <= u64::MAX,
    decreases n,
{
    if n > 0 {
        lemma_sum_is_counted(regions, (n - 1) as nat, bytes);
    }
}

proof fn lemma_region_found(regions: Seq<BindRegion>, id: u64, i: int)
    requires
        0 <= i,
        region_from(regions, id, i) >= 0,
    ensures
        i <= region_from(regions, id, i) < regions.len(),
    decreases regions.len() - i,
{
    if i < regions.len() && region_from(regions, id, i) != i {
        lemma_region_found(regions, id, i + 1);
    }
}

proof fn lemma_sum_grows(
    before: Seq<BindRegion>,
    after: Seq<BindRegion>,
    r: int,
    n: nat,
    size: int,
    bytes: bool,
)
    requires
        0 <= r < before.len() == after.len(),
        n <= before.len(),
        0 <= size,
        forall|i: int| 0 <= i < before.len() && i != r ==> #[trigger] after[i] == before[i],
        bytes ==> after[r].contents().byte_count() == saturating(
            before[r].contents().byte_count(),
            size,
        ),
        !bytes ==> after[r].contents().object_count() == saturating(
            before[r].contents().object_count(),
            size,
        ),
        region_sum(before, n, bytes) + size < u64::MAX,
    ensures
        region_sum(after, n, bytes) == region_sum(before, n, bytes) + if n > r {
            size
        } else {
            0
        },
        0 <= region_sum(before, n, bytes),
    decreases n,
{
    if n > 0 {
        let part = if bytes {
            before[n - 1].contents().byte_count()
        } else {
            before[n - 1].contents().object_count()
        };
        assert(0 <= part);
        assert(region_sum(before, n, bytes) == saturating(
            region_sum(before, (n - 1) as nat, bytes),
            part,
        ));
        lemma_sum_grows(before, after, r, (n - 1) as nat, size, bytes);
    }
}

/// What runs in old space runs with a request for it open, and the requests are afterwards
/// as many as before where it leaves them alone.
pub proof fn old_space_is_requested_while_it_is_used<F: FnOnce(CelHeap) -> (CelHeap, bool)>(
    heap: CelHeap,
    f: F,
    r: (CelHeap, bool),
)
    requires
        call_ensures(with_old_space::<bool, F>, (heap, f), r),
        heap.forced() < u32::MAX,
        forall|h: CelHeap, o: (CelHeap, bool)| #[trigger]
            call_ensures(f, (h,), o) ==> o.0.forced() == h.forced() && o.1 == (h.forced() > 0),
    ensures
        r.1,
        r.0.forced() == heap.forced(),
{
}

/// What fills a region runs with that region being filled and old space requested; where
/// it leaves these alone, they are afterwards as before.
pub proof fn a_region_is_filled_while_it_is_used<F: FnOnce(CelHeap) -> (CelHeap, u64)>(
    heap: CelHeap,
    id: u64,
    f: F,
    r: (CelHeap, u64),
)
    requires
        call_ensures(with_bind_region::<u64, F>, (heap, id, f), r),
        heap.forced() < u32::MAX,
        forall|h: CelHeap, o: (CelHeap, u64)| #[trigger]
            call_ensures(f, (h,), o) ==> o.0.forced() == h.forced() && o.1 == h.filling(),
    ensures
        r.1 == id,
        r.0.forced() == heap.forced(),
        r.0.filling() == heap.filling(),
{
}

/// A region that is recycled is gone, and the others stay.
pub proof fn a_recycled_region_is_gone(
    h: &mut CelHeap,
    id: u64,
    s: usize,
    o: usize,
    gone: bool,
    at: Place,
    before: bool,
    after: bool,
)
    requires
        call_ensures(CelHeap::recycle_region, (h, id), ()),
        call_ensures(CelHeap::contains, (&*final(h), Place::Region(id, s, o)), gone),
        !(at is Region),
        call_ensures(CelHeap::contains, (&*old(h), at), before),
        call_ensures(CelHeap::contains, (&*final(h), at), after),
    ensures
        !gone,
        before == after,
{
}

/// Where an object stands: prebuilt objects and constants are in no heap and always there;
/// what is young is in the nursery. A frame may refer to what is there, or to nothing.
pub proof fn places_are_told_apart(
    h: CelHeap,
    at: Place,
    lasting: bool,
    alive: bool,
    young: bool,
    w: CelRef,
    fine: bool,
)
    requires
        call_ensures(is_immortal, (at,), lasting),
        call_ensures(CelHeap::contains, (&h, at), alive),
        call_ensures(CelHeap::is_young, (&h, at), young),
        call_ensures(assert_frame_cell, (&h, &w), fine),
        w matches Some(x) ==> crate::runtime::object::place_of(*x) == at,
    ensures
        lasting <==> at is Immortal || at is Constant,
        lasting ==> !alive,
        young <==> alive && at is Young,
        w is None ==> fine,
        w is Some ==> (fine <==> lasting || alive),
{
}

/// The old space has its own bytes and segments; the nursery's are counted on top.
pub proof fn spaces_are_counted(
    h: CelHeap,
    bytes: u64,
    all: u64,
    old_segments: usize,
    segments: usize,
    hosts: usize,
)
    requires
        call_ensures(CelHeap::old_allocated_bytes, (&h,), bytes),
        call_ensures(CelHeap::old_segments, (&h,), old_segments),
        call_ensures(CelHeap::segments, (&h,), segments),
        call_ensures(CelHeap::host_count, (&h,), hosts),
        h.live_regions().len() == 0,
    ensures
        bytes == h.old_space().byte_count(),
        old_segments == h.old_space().segs().len(),
        segments == old_segments + h.nursery_space().segs().len(),
        hosts == h.old_hosts().len() + h.eval_hosts().len(),
{
}

/// The high-water mark is the most that the nursery has had at once: never below what it
/// has now, and kept when the evaluation ends that filled it.
pub proof fn the_high_water_mark_is_kept(
    h: &mut CelHeap,
    outermost: bool,
    before: u64,
    after: u64,
)
    requires
        call_ensures(CelHeap::leave, (h, outermost), ()),
        call_ensures(CelHeap::nursery_high_water, (&*old(h),), before),
        call_ensures(CelHeap::nursery_high_water, (&*final(h),), after),
        old(h).eval_depth_of() > 0,
    ensures
        before == after,
        before >= old(h).nursery_space().byte_count(),
        old(h).high_water() <= old(h).nursery_space().byte_count() ==> before == old(
            h,
        ).nursery_space().byte_count(),
        old(h).high_water() >= old(h).nursery_space().byte_count() ==> before == old(
            h,
        ).high_water(),
{
}

} // verus!
