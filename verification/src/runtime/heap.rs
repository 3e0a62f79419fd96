//! The heap that leaves are allocated from.
//!
//! Memory is handed out by bumping through segments and never moves. There are
//! three kinds of space. The nursery is reclaimed whole when the outermost
//! evaluation ends. Old space lives as long as the heap. A binding region holds
//! what a context bound, and is released with it. A leaf keeps what it refers to
//! alive by itself; the heap decides where it stands and accounts for it.

use crate::runtime::object::{place_of, w_place, CelRef, Host, Place, W_CelFrame};
use crate::value::Value;
use vstd::arithmetic::power2::pow2;
use vstd::prelude::*;

verus! {

/// Bytes per segment.
pub const SEGMENT_BYTES: usize = 65536;

/// Nursery segments kept after a reset.
pub const NURSERY_KEEP_SEGMENTS: usize = 2;

/// Rewound regions kept for reuse.
pub const SPARE_REGIONS: usize = 2;

/// An alignment is a power of two.
pub open spec fn is_align(align: usize) -> bool {
    exists|k: nat| align == pow2(k)
}

/// The first multiple of `align` at or after `used`.
pub open spec fn align_up(used: int, align: int) -> int {
    ((used + align - 1) / align) * align
}

/// A sum, or the largest number where it is more.
pub open spec fn saturating(a: int, b: int) -> int {
    if a + b <= u64::MAX {
        a + b
    } else {
        u64::MAX as int
    }
}

/// One run of memory, handed out by bumping.
#[derive(Clone, Copy, Debug)]
pub struct Segment {
    /// Bytes handed out.
    pub used: usize,
    pub capacity: usize,
}

/// One bump space: a run of segments, the last of which is open.
#[derive(Debug)]
pub struct Space {
    pub(crate) segments: Vec<Segment>,
    pub(crate) objects: u64,
    pub(crate) bytes: u64,
}

impl Space {
    /// No segment is used beyond its capacity.
    pub open(crate) spec fn wf(&self) -> bool {
        forall|i: int|
            0 <= i < self.segments@.len() ==> (#[trigger] self.segments@[i]).used
                <= self.segments@[i].capacity <= isize::MAX
    }

    /// The segments.
    pub open(crate) spec fn segs(&self) -> Seq<Segment> {
        self.segments@
    }

    /// How many objects were handed out.
    pub open(crate) spec fn object_count(&self) -> int {
        self.objects as int
    }

    /// How many bytes were handed out, without padding.
    pub open(crate) spec fn byte_count(&self) -> int {
        self.bytes as int
    }

    /// Whether an address lies in memory that is handed out.
    pub open(crate) spec fn holds(&self, segment: int, offset: int) -> bool {
        0 <= segment < self.segments@.len() && 0 <= offset < self.segments@[segment].used
    }

    /// Nothing is handed out.
    pub open(crate) spec fn rewound(&self) -> bool {
        forall|i: int| 0 <= i < self.segments@.len() ==> (#[trigger] self.segments@[i]).used == 0
    }

    pub(crate) fn new() -> (r: Space)
        ensures
            r.wf(),
            r.segs().len() == 0,
            r.object_count() == 0,
            r.byte_count() == 0,
            r.rewound(),
    {
        Space { segments: Vec::new(), objects: 0, bytes: 0 }
    }

    /// Reserve `size` bytes at `align`: in the open segment if they fit there, else
    /// in a new one.
    pub(crate) fn bump(&mut self, size: usize, align: usize) -> (r: (usize, usize))
        requires
            old(self).wf(),
            is_align(align),
            size + align <= isize::MAX,
        ensures
            final(self).wf(),
            bumped(old(self).segs(), final(self).segs(), size as int, align as int, r),
            final(self).object_count() == saturating(old(self).object_count(), 1),
            final(self).byte_count() == saturating(old(self).byte_count(), size as int),
    {
        proof {
            let k = choose|k: nat| align == pow2(k);
            vstd::arithmetic::power2::lemma_pow2_pos(k);
        }
        let n: usize = self.segments.len();
        self.objects = self.objects.saturating_add(1);
        self.bytes = self.bytes.saturating_add(size as u64);
        if n > 0 {
            let open = self.segments[n - 1];
            let start: usize = aligned(open.used, align);
            if size <= open.capacity && start <= open.capacity - size {
                self.segments[n - 1] = Segment { used: start + size, capacity: open.capacity };
                return (n - 1, start);
            }
        }
        let capacity: usize = if size + align > SEGMENT_BYTES {
            size + align
        } else {
            SEGMENT_BYTES
        };
        self.segments.push(Segment { used: size, capacity });
        (n, 0)
    }

    /// Whether an address lies in memory that is handed out.
    pub(crate) fn contains(&self, segment: usize, offset: usize) -> (r: bool)
        ensures
            r == self.holds(segment as int, offset as int),
    {
        segment < self.segments.len() && offset < self.segments[segment].used
    }

    /// Bytes handed out of the open segment.
    fn open_used(&self) -> (r: usize)
        ensures
            r == open_used(self.segs()),
    {
        let n: usize = self.segments.len();
        if n == 0 {
            0
        } else {
            self.segments[n - 1].used
        }
    }

    /// Take back everything that was handed out, and keep the segments.
    fn rewind(&mut self)
        requires
            old(self).wf(),
        ensures
            final(self).wf(),
            final(self).rewound(),
            final(self).segs().len() == old(self).segs().len(),
            final(self).object_count() == 0,
            final(self).byte_count() == 0,
    {
        let n: usize = self.segments.len();
        let mut i: usize = 0;
        while i < n
            invariant
                i <= n,
                n == self.segments@.len(),
                n == old(self).segments@.len(),
                self.wf(),
                forall|j: int| 0 <= j < i ==> (#[trigger] self.segments@[j]).used == 0,
            decreases n - i,
        {
            let capacity: usize = self.segments[i].capacity;
            self.segments[i] = Segment { used: 0, capacity };
            i = i + 1;
        }
        self.objects = 0;
        self.bytes = 0;
    }
}

/// Bytes handed out of the open segment.
pub open spec fn open_used(segs: Seq<Segment>) -> int {
    if segs.len() == 0 {
        0
    } else {
        segs.last().used as int
    }
}

/// What a reservation does to the segments, and where it lies.
pub open spec fn bumped(
    before: Seq<Segment>,
    after: Seq<Segment>,
    size: int,
    align: int,
    at: (usize, usize),
) -> bool {
    let start = align_up(open_used(before), align);
    if before.len() > 0 && start + size <= before.last().capacity {
        &&& at.0 == before.len() - 1
        &&& at.1 == start
        &&& after.len() == before.len()
        &&& forall|i: int| 0 <= i < before.len() - 1 ==> #[trigger] after[i] == before[i]
        &&& after.last().used == start + size
        &&& after.last().capacity == before.last().capacity
    } else {
        &&& at.0 == before.len()
        &&& at.1 == 0
        &&& after.len() == before.len() + 1
        &&& forall|i: int| 0 <= i < before.len() ==> #[trigger] after[i] == before[i]
        &&& after.last().used == size
        &&& after.last().capacity == if size + align > SEGMENT_BYTES {
            size + align
        } else {
            SEGMENT_BYTES as int
        }
    }
}

/// The first multiple of `align` at or after `used`.
fn aligned(used: usize, align: usize) -> (r: usize)
    requires
        used <= isize::MAX,
        0 < align <= isize::MAX,
    ensures
        r == align_up(used as int, align as int),
        used <= r < used + align,
{
    proof {
        lemma_align_up(used as int, align as int);
    }
    let n: usize = (used + (align - 1)) / align;
    assert(n * align == align_up(used as int, align as int));
    n * align
}

/// An aligned address is a multiple of the alignment, and less than one alignment
/// past where it was sought.
pub proof fn lemma_align_up(used: int, align: int)
    requires
        0 <= used,
        0 < align,
    ensures
        used <= align_up(used, align) < used + align,
        align_up(used, align) % align == 0,
{
    let q = (used + align - 1) / align;
    let rem = (used + align - 1) % align;
    vstd::arithmetic::div_mod::lemma_fundamental_div_mod(used + align - 1, align);
    assert(align * q == q * align) by (nonlinear_arith);
    assert((q * align) % align == 0) by {
        vstd::arithmetic::div_mod::lemma_mod_multiples_basic(q, align);
    }
}

/// The reservations of one space are aligned and do not overlap: a reservation
/// starts at a multiple of its alignment, in memory that was not handed out
/// before; all of it is handed out then; and what was handed out stays so.
pub proof fn reservations_are_aligned_and_disjoint(
    before: Seq<Segment>,
    after: Seq<Segment>,
    size: int,
    align: int,
    at: (usize, usize),
)
    requires
        0 <= size,
        0 < align,
        size + align <= isize::MAX,
        forall|i: int|
            0 <= i < before.len() ==> (#[trigger] before[i]).used <= before[i].capacity <= isize::MAX,
        bumped(before, after, size, align, at),
    ensures
        at.1 as int % align == 0,
        at.0 < after.len(),
        at.0 < before.len() ==> before[at.0 as int].used <= at.1,
        at.1 + size <= after[at.0 as int].used <= after[at.0 as int].capacity,
        forall|i: int| 0 <= i < before.len() ==> (#[trigger] before[i]).used <= after[i].used,
{
    lemma_align_up(open_used(before), align);
    vstd::arithmetic::div_mod::lemma_small_mod(0, align as nat);
    assert(before.len() > 0 ==> before.last() == before[before.len() - 1]);
    assert(after.last() == after[after.len() - 1]);
}

/// What a context allocates the leaves that it binds from.
#[derive(Debug)]
pub struct BindRegion {
    pub(crate) space: Space,
    pub(crate) hosts: Vec<Host>,
    /// The number under which a heap knows the region, or 0.
    pub(crate) id: u64,
    /// The activation record kept for reuse.
    pub(crate) eval_frame: Option<W_CelFrame>,
}

impl BindRegion {
    /// The space is well formed.
    pub open(crate) spec fn wf(&self) -> bool {
        self.space.wf()
    }

    /// The number under which a heap knows the region, or 0.
    pub open(crate) spec fn region_id(&self) -> u64 {
        self.id
    }

    /// What is allocated in it.
    pub open(crate) spec fn contents(&self) -> Space {
        self.space
    }

    /// The hosts that are parked in it.
    pub open(crate) spec fn parked(&self) -> Seq<Host> {
        self.hosts@
    }

    /// The record kept for reuse.
    pub open(crate) spec fn frame(&self) -> Option<W_CelFrame> {
        self.eval_frame
    }

    /// A region that no heap knows yet, with nothing in it.
    pub fn new() -> (r: BindRegion)
        ensures
            r.wf(),
            r.region_id() == 0,
            r.contents().segs().len() == 0,
            r.contents().rewound(),
            r.contents().object_count() == 0,
            r.contents().byte_count() == 0,
            r.parked().len() == 0,
            r.frame() is None,
    {
        BindRegion { space: Space::new(), hosts: Vec::new(), id: 0, eval_frame: None }
    }

    /// Take back everything, keep the segments, and forget the heap.
    fn rewind(&mut self)
        requires
            old(self).wf(),
        ensures
            final(self).wf(),
            final(self).contents().rewound(),
            final(self).contents().segs().len() == old(self).contents().segs().len(),
            final(self).contents().object_count() == 0,
            final(self).contents().byte_count() == 0,
            final(self).parked().len() == 0,
            final(self).region_id() == 0,
            final(self).frame() is None,
    {
        self.space.rewind();
        self.hosts = Vec::new();
        self.id = 0;
        self.eval_frame = None;
    }

    /// Take the record kept for reuse, if it has room for `need` cells.
    pub fn take_eval_frame(&mut self, need: usize) -> (r: Option<W_CelFrame>)
        requires
            old(self).wf(),
        ensures
            final(self).wf(),
            final(self).contents() == old(self).contents(),
            final(self).parked() == old(self).parked(),
            final(self).region_id() == old(self).region_id(),
            match old(self).frame() {
                Some(f) => if f.locals_stack_w.cells() >= need {
                    r == Some(f) && final(self).frame() is None
                } else {
                    r is None && final(self).frame() == Some(f)
                },
                None => r is None && final(self).frame() is None,
            },
    {
        let mut taken: Option<W_CelFrame> = None;
        std::mem::swap(&mut taken, &mut self.eval_frame);
        match taken {
            Some(f) => if f.locals_stack_w.capacity() >= need {
                Some(f)
            } else {
                self.eval_frame = Some(f);
                None
            },
            None => None,
        }
    }

    /// Keep a record for reuse, in place of the one that was kept.
    pub fn store_eval_frame(&mut self, frame: W_CelFrame)
        requires
            old(self).wf(),
        ensures
            final(self).wf(),
            final(self).contents() == old(self).contents(),
            final(self).parked() == old(self).parked(),
            final(self).region_id() == old(self).region_id(),
            final(self).frame() == Some(frame),
    {
        self.eval_frame = Some(frame);
    }
}

/// The nursery as an outermost evaluation finds it.
#[derive(Clone, Copy, Debug, PartialEq, Eq, Structural)]
pub struct NurserySnap {
    pub used: usize,
    pub len: usize,
    pub hosts: usize,
}

/// The slot of a host.
#[derive(Clone, Copy, Debug, PartialEq, Eq, Structural)]
pub enum HostIndex {
    /// Kept as long as the heap.
    Old(usize),
    /// Dropped when the outermost evaluation ends.
    Young(usize),
    /// Kept by a binding region.
    Region(u64, usize),
}

/// The heap.
#[derive(Debug)]
pub struct CelHeap {
    pub(crate) old: Space,
    pub(crate) nursery: Space,
    /// How many evaluations are nested.
    pub(crate) depth: u32,
    /// How many requests to allocate in old space are nested.
    pub(crate) force_old: u32,
    pub(crate) snap: NurserySnap,
    pub(crate) nursery_high_water: u64,
    pub(crate) hosts: Vec<Host>,
    pub(crate) young_hosts: Vec<Host>,
    /// The number of the region that is being filled, or 0.
    pub(crate) bind_region: u64,
    pub(crate) regions: Vec<BindRegion>,
    pub(crate) next_region_id: u64,
    pub(crate) spare_regions: Vec<BindRegion>,
}

/// The place of the region with this number, from `i` on, or -1.
pub open(crate) spec fn region_from(regions: Seq<BindRegion>, id: u64, i: int) -> int
    decreases regions.len() - i,
{
    if i < 0 || i >= regions.len() {
        -1
    } else if regions[i].id == id {
        i
    } else {
        region_from(regions, id, i + 1)
    }
}

/// What the regions hold together.
pub open(crate) spec fn region_sum(regions: Seq<BindRegion>, n: nat, bytes: bool) -> int
    decreases n,
{
    if n == 0 || n > regions.len() {
        0
    } else {
        saturating(
            region_sum(regions, (n - 1) as nat, bytes),
            if bytes {
                regions[n - 1].space.bytes as int
            } else {
                regions[n - 1].space.objects as int
            },
        )
    }
}

impl CelHeap {
    /// What holds of every heap. Between evaluations the nursery is empty.
    pub open(crate) spec fn wf(&self) -> bool {
        &&& self.old.wf()
        &&& self.nursery.wf()
        &&& forall|i: int|
            0 <= i < self.regions@.len() ==> (#[trigger] self.regions@[i]).wf() && 0
                < self.regions@[i].id <= self.next_region_id
        &&& forall|i: int, j: int|
            0 <= i < self.regions@.len() && 0 <= j < self.regions@.len() && (
            #[trigger] self.regions@[i]).id == (#[trigger] self.regions@[j]).id ==> i == j
        &&& forall|i: int|
            0 <= i < self.spare_regions@.len() ==> (#[trigger] self.spare_regions@[i]).wf()
                && self.spare_regions@[i].space.rewound() && self.spare_regions@[i].id == 0
                && self.spare_regions@[i].hosts@.len() == 0
        &&& self.spare_regions@.len() <= SPARE_REGIONS
        &&& self.bind_region != 0 ==> region_from(self.regions@, self.bind_region, 0) >= 0
        &&& if self.depth == 0 {
            self.nursery_empty()
        } else {
            &&& self.snap.used == 0
            &&& self.snap.hosts == 0
            &&& self.snap.len <= self.nursery.segments@.len()
            &&& forall|i: int|
                0 <= i < self.snap.len - 1 ==> (#[trigger] self.nursery.segments@[i]).used == 0
            &&& self.nursery.segments@.len() == self.snap.len && open_used(self.nursery.segments@)
                == 0 ==> self.nursery.bytes == 0
        }
    }

    /// Nothing is handed out of the nursery.
    pub open(crate) spec fn nursery_empty(&self) -> bool {
        &&& self.nursery.rewound()
        &&& self.nursery.objects == 0
        &&& self.nursery.bytes == 0
        &&& self.young_hosts@.len() == 0
    }

    /// How many evaluations are nested.
    pub open(crate) spec fn eval_depth_of(&self) -> int {
        self.depth as int
    }

    /// How many requests for old space are nested.
    pub open(crate) spec fn forced(&self) -> int {
        self.force_old as int
    }

    /// Old space.
    pub open(crate) spec fn old_space(&self) -> Space {
        self.old
    }

    /// The nursery.
    pub open(crate) spec fn nursery_space(&self) -> Space {
        self.nursery
    }

    /// The regions of the contexts that are alive.
    pub open(crate) spec fn live_regions(&self) -> Seq<BindRegion> {
        self.regions@
    }

    /// The hosts that are kept as long as the heap.
    pub open(crate) spec fn old_hosts(&self) -> Seq<Host> {
        self.hosts@
    }

    /// The hosts that are dropped when the outermost evaluation ends.
    pub open(crate) spec fn eval_hosts(&self) -> Seq<Host> {
        self.young_hosts@
    }

    /// The number of the region that is being filled, or 0.
    pub open(crate) spec fn filling(&self) -> u64 {
        self.bind_region
    }

    /// The peak of the nursery at the end of the evaluations so far.
    pub open(crate) spec fn high_water(&self) -> u64 {
        self.nursery_high_water
    }

    /// The most bytes that the nursery ever held at once.
    pub open spec fn peak(&self) -> int {
        if self.nursery_space().byte_count() > self.high_water() {
            self.nursery_space().byte_count()
        } else {
            self.high_water() as int
        }
    }

    /// How many objects are alive, as far as the counters count.
    pub open spec fn objects_alive(&self) -> int {
        saturating(
            saturating(self.old_space().object_count(), self.nursery_space().object_count()),
            region_sum(self.live_regions(), self.live_regions().len(), false),
        )
    }

    /// How many bytes are alive, without padding, as far as the counters count.
    pub open spec fn bytes_alive(&self) -> int {
        saturating(
            saturating(self.old_space().byte_count(), self.nursery_space().byte_count()),
            region_sum(self.live_regions(), self.live_regions().len(), true),
        )
    }

    /// A heap that nothing was done with.
    pub open spec fn fresh(&self) -> bool {
        &&& self.wf()
        &&& self.eval_depth_of() == 0
        &&& self.forced() == 0
        &&& self.old_space().segs().len() == 0
        &&& self.nursery_space().segs().len() == 0
        &&& self.old_space().object_count() == 0
        &&& self.old_space().byte_count() == 0
        &&& self.nursery_space().object_count() == 0
        &&& self.nursery_space().byte_count() == 0
        &&& self.live_regions().len() == 0
        &&& self.old_hosts().len() == 0
        &&& self.eval_hosts().len() == 0
        &&& self.filling() == 0
        &&& self.high_water() == 0
        &&& self.regions_made() == 0
        &&& self.spares() == 0
    }

    /// Whether allocation goes to the nursery.
    pub open spec fn allocates_young(&self) -> bool {
        self.eval_depth_of() > 0 && self.forced() == 0
    }

    /// Whether an object of this heap is alive at a place.
    pub open(crate) spec fn live(&self, at: Place) -> bool {
        match at {
            Place::Old(s, o) => self.old.holds(s as int, o as int),
            Place::Young(s, o) => self.nursery.holds(s as int, o as int),
            Place::Region(id, s, o) => {
                let r = region_from(self.regions@, id, 0);
                0 <= r < self.regions@.len() && self.regions@[r].space.holds(s as int, o as int)
            },
            _ => false,
        }
    }

    /// What an allocation leaves alone: everything but the spaces.
    pub open(crate) spec fn same_but_spaces(&self, other: &CelHeap) -> bool {
        &&& self.depth == other.depth
        &&& self.force_old == other.force_old
        &&& self.snap == other.snap
        &&& self.nursery_high_water == other.nursery_high_water
        &&& self.hosts@ == other.hosts@
        &&& self.young_hosts@ == other.young_hosts@
        &&& self.bind_region == other.bind_region
        &&& self.next_region_id == other.next_region_id
        &&& self.spare_regions@ == other.spare_regions@
        &&& self.regions@.len() == other.regions@.len()
    }

    /// What every operation of the runtime keeps: what was alive stays alive, and
    /// the evaluations, the requests for old space and the region being filled are
    /// the same.
    pub open(crate) spec fn grown_from(&self, before: &CelHeap) -> bool {
        &&& self.wf()
        &&& self.depth == before.depth
        &&& self.force_old == before.force_old
        &&& self.snap == before.snap
        &&& self.bind_region == before.bind_region
        &&& self.next_region_id == before.next_region_id
        &&& !before.allocates_young() ==> self.nursery == before.nursery
        &&& forall|at: Place| before.live(at) ==> #[trigger] self.live(at)
    }

    /// The nursery that leaves are copied out of when they are interned: while old space
    /// is asked for, what is interned must not die with the evaluation.
    pub open spec fn copied_from(&self) -> Option<Space> {
        if self.forced() > 0 {
            Some(self.nursery_space())
        } else {
            None
        }
    }

    /// An empty heap.
    pub fn new() -> (r: CelHeap)
        ensures
            r.fresh(),
    {
        CelHeap {
            old: Space::new(),
            nursery: Space::new(),
            depth: 0,
            force_old: 0,
            snap: NurserySnap { used: 0, len: 0, hosts: 0 },
            nursery_high_water: 0,
            hosts: Vec::new(),
            young_hosts: Vec::new(),
            bind_region: 0,
            regions: Vec::new(),
            next_region_id: 0,
            spare_regions: Vec::new(),
        }
    }
}

/// What [`region_from`] finds.
pub(crate) proof fn lemma_region_from(regions: Seq<BindRegion>, id: u64, i: int)
    requires
        0 <= i <= regions.len(),
    ensures
        ({
            let p = region_from(regions, id, i);
            ||| p == -1 && forall|j: int| i <= j < regions.len() ==> (#[trigger] regions[j]).id != id
            ||| i <= p < regions.len() && regions[p].id == id && forall|j: int|
                i <= j < p ==> (#[trigger] regions[j]).id != id
        }),
    decreases regions.len() - i,
{
    if i < regions.len() && regions[i].id != id {
        lemma_region_from(regions, id, i + 1);
    }
}

/// Where a region stands depends on the numbers alone.
proof fn lemma_region_from_ids(a: Seq<BindRegion>, b: Seq<BindRegion>, id: u64, i: int)
    requires
        a.len() == b.len(),
        forall|j: int| 0 <= j < a.len() ==> (#[trigger] a[j]).id == b[j].id,
        0 <= i,
    ensures
        region_from(a, id, i) == region_from(b, id, i),
    decreases a.len() - i,
{
    if i < a.len() && a[i].id != id {
        lemma_region_from_ids(a, b, id, i + 1);
    }
}

/// Where an allocation of this heap lies, and which space it came from.
pub open(crate) spec fn allocated_in(
    before: &CelHeap,
    after: &CelHeap,
    size: int,
    align: int,
    at: Place,
) -> bool {
    &&& after.same_but_spaces(before)
    &&& if before.allocates_young() {
        &&& at matches Place::Young(s, o) && bumped(
            before.nursery.segs(),
            after.nursery.segs(),
            size,
            align,
            (s, o),
        )
        &&& after.nursery.object_count() == saturating(before.nursery.object_count(), 1)
        &&& after.nursery.byte_count() == saturating(before.nursery.byte_count(), size)
        &&& after.old == before.old
        &&& after.regions@ == before.regions@
    } else if before.bind_region != 0 {
        let r = region_from(before.regions@, before.bind_region, 0);
        &&& at matches Place::Region(id, s, o) && id == before.bind_region && bumped(
            before.regions@[r].space.segs(),
            after.regions@[r].space.segs(),
            size,
            align,
            (s, o),
        )
        &&& after.regions@[r].space.object_count() == saturating(
            before.regions@[r].space.object_count(),
            1,
        )
        &&& after.regions@[r].space.byte_count() == saturating(
            before.regions@[r].space.byte_count(),
            size,
        )
        &&& forall|i: int|
            0 <= i < before.regions@.len() && i != r ==> #[trigger] after.regions@[i]
                == before.regions@[i]
        &&& after.old == before.old
        &&& after.nursery == before.nursery
    } else {
        &&& allocated_old(before, after, size, align, at)
    }
}

/// Where an allocation in old space lies.
pub open(crate) spec fn allocated_old(
    before: &CelHeap,
    after: &CelHeap,
    size: int,
    align: int,
    at: Place,
) -> bool {
    &&& after.same_but_spaces(before)
    &&& at matches Place::Old(s, o) && bumped(before.old.segs(), after.old.segs(), size, align, (s, o))
    &&& after.old.object_count() == saturating(before.old.object_count(), 1)
    &&& after.old.byte_count() == saturating(before.old.byte_count(), size)
    &&& after.nursery == before.nursery
    &&& after.regions@ == before.regions@
}

proof fn lemma_bumped_keeps(
    before: Seq<Segment>,
    after: Seq<Segment>,
    size: int,
    align: int,
    at: (usize, usize),
)
    requires
        0 <= size,
        is_align(align as usize),
        0 < align <= isize::MAX,
        size + align <= isize::MAX,
        forall|i: int|
            0 <= i < before.len() ==> (#[trigger] before[i]).used <= before[i].capacity
                <= isize::MAX,
        bumped(before, after, size, align, at),
    ensures
        after.len() >= before.len(),
        forall|i: int| 0 <= i < before.len() ==> (#[trigger] before[i]).used <= after[i].used,
        forall|i: int| 0 <= i < before.len() - 1 ==> (#[trigger] after[i]) == before[i],
        at.0 < after.len(),
        size > 0 ==> at.1 < after[at.0 as int].used,
{
    lemma_align_up(open_used(before), align);
    assert(before.len() > 0 ==> before.last() == before[before.len() - 1]);
    assert(after.last() == after[after.len() - 1]);
}

impl CelHeap {
    /// Reserve `size` bytes at `align`. During an evaluation the memory is the
    /// nursery's, unless old space is asked for; while a region is being filled it
    /// is the region's; else it is old.
    pub fn alloc_raw(&mut self, size: usize, align: usize) -> (at: Place)
        requires
            old(self).wf(),
            is_align(align),
            size + align <= isize::MAX,
        ensures
            final(self).grown_from(old(self)),
            allocated_in(old(self), final(self), size as int, align as int, at),
            size > 0 ==> final(self).live(at),
    {
        proof {
            let k = choose|k: nat| align == pow2(k);
            vstd::arithmetic::power2::lemma_pow2_pos(k);
        }
        if self.depth > 0 && self.force_old == 0 {
            let ghost before = self.nursery.segs();
            let (s, o) = self.nursery.bump(size, align);
            proof {
                lemma_bumped_keeps(before, self.nursery.segs(), size as int, align as int, (s, o));
                lemma_align_up(open_used(before), align as int);
            }
            return Place::Young(s, o);
        }
        if self.bind_region != 0 {
            let id: u64 = self.bind_region;
            let found = self.region_position(id);
            proof {
                lemma_region_from(self.regions@, id, 0);
            }
            if let Some(r) = found {
                let ghost before = self.regions@;
                let (s, o) = self.region_bump(r, size, align);
                return Place::Region(id, s, o);
            }
        }
        self.alloc_old_raw(size, align)
    }

    /// Reserve `size` bytes at `align` in old space, even if an evaluation is
    /// running.
    pub fn alloc_old_raw(&mut self, size: usize, align: usize) -> (at: Place)
        requires
            old(self).wf(),
            is_align(align),
            size + align <= isize::MAX,
        ensures
            final(self).grown_from(old(self)),
            allocated_old(old(self), final(self), size as int, align as int, at),
            size > 0 ==> final(self).live(at),
    {
        proof {
            let k = choose|k: nat| align == pow2(k);
            vstd::arithmetic::power2::lemma_pow2_pos(k);
        }
        let ghost before = self.old.segs();
        let (s, o) = self.old.bump(size, align);
        proof {
            lemma_bumped_keeps(before, self.old.segs(), size as int, align as int, (s, o));
            lemma_align_up(open_used(before), align as int);
        }
        Place::Old(s, o)
    }

    /// The place of a region.
    fn region_position(&self, id: u64) -> (r: Option<usize>)
        ensures
            match r {
                Some(i) => i < self.regions@.len() && region_from(self.regions@, id, 0) == i,
                None => region_from(self.regions@, id, 0) == -1,
            },
    {
        let mut i: usize = 0;
        while i < self.regions.len()
            invariant
                i <= self.regions@.len(),
                region_from(self.regions@, id, 0) == region_from(self.regions@, id, i as int),
            decreases self.regions@.len() - i,
        {
            if self.regions[i].id == id {
                return Some(i);
            }
            i = i + 1;
        }
        None
    }

    /// Reserve memory in a region.
    fn region_bump(&mut self, r: usize, size: usize, align: usize) -> (at: (usize, usize))
        requires
            old(self).wf(),
            r < old(self).regions@.len(),
            region_from(old(self).regions@, old(self).regions@[r as int].id, 0) == r,
            is_align(align),
            size + align <= isize::MAX,
        ensures
            final(self).grown_from(old(self)),
            final(self).same_but_spaces(old(self)),
            final(self).old == old(self).old,
            final(self).nursery == old(self).nursery,
            bumped(
                old(self).regions@[r as int].space.segs(),
                final(self).regions@[r as int].space.segs(),
                size as int,
                align as int,
                at,
            ),
            final(self).regions@[r as int].space.object_count() == saturating(
                old(self).regions@[r as int].space.object_count(),
                1,
            ),
            final(self).regions@[r as int].space.byte_count() == saturating(
                old(self).regions@[r as int].space.byte_count(),
                size as int,
            ),
            final(self).regions@[r as int].id == old(self).regions@[r as int].id,
            final(self).regions@[r as int].hosts@ == old(self).regions@[r as int].hosts@,
            final(self).regions@.len() == old(self).regions@.len(),
            forall|i: int|
                0 <= i < old(self).regions@.len() && i != r ==> #[trigger] final(self).regions@[i]
                    == old(self).regions@[i],
            size > 0 ==> final(self).live(
                Place::Region(old(self).regions@[r as int].id, at.0, at.1),
            ),
    {
        proof {
            let k = choose|k: nat| align == pow2(k);
            vstd::arithmetic::power2::lemma_pow2_pos(k);
        }
        let ghost before = self.regions@;
        let at = self.regions[r].space.bump(size, align);
        proof {
            let b = before[r as int].space.segs();
            let a = self.regions@[r as int].space.segs();
            lemma_bumped_keeps(b, a, size as int, align as int, at);
            lemma_align_up(open_used(b), align as int);
            assert forall|i: int| 0 <= i < before.len() implies (#[trigger] before[i]).id
                == self.regions@[i].id by {}
            assert forall|id: u64| #[trigger] region_from(before, id, 0) == region_from(
                self.regions@,
                id,
                0,
            ) by {
                lemma_region_from_ids(before, self.regions@, id, 0);
            }
            assert forall|p: Place| old(self).live(p) implies #[trigger] self.live(p) by {
                match p {
                    Place::Region(id, s, o) => {
                        lemma_region_from(before, id, 0);
                    },
                    _ => {},
                }
            }
        }
        at
    }

    /// Objects handed out that are alive: of old space, of the nursery and of the
    /// regions.
    pub fn allocated_objects(&self) -> (r: u64)
        ensures
            r == self.objects_alive(),
    {
        let mut sum: u64 = 0;
        let mut i: usize = 0;
        while i < self.regions.len()
            invariant
                i <= self.regions@.len(),
                sum == region_sum(self.regions@, i as nat, false),
            decreases self.regions@.len() - i,
        {
            sum = sum.saturating_add(self.regions[i].space.objects);
            i = i + 1;
        }
        self.old.objects.saturating_add(self.nursery.objects).saturating_add(sum)
    }

    /// Bytes handed out that are alive, without padding.
    pub fn allocated_bytes(&self) -> (r: u64)
        ensures
            r == self.bytes_alive(),
    {
        let mut sum: u64 = 0;
        let mut i: usize = 0;
        while i < self.regions.len()
            invariant
                i <= self.regions@.len(),
                sum == region_sum(self.regions@, i as nat, true),
            decreases self.regions@.len() - i,
        {
            sum = sum.saturating_add(self.regions[i].space.bytes);
            i = i + 1;
        }
        self.old.bytes.saturating_add(self.nursery.bytes).saturating_add(sum)
    }

    /// Bytes of old space.
    pub fn old_allocated_bytes(&self) -> (r: u64)
        ensures
            r == self.old_space().byte_count(),
    {
        self.old.bytes
    }

    /// Segments held by old space and the nursery.
    pub fn segments(&self) -> (r: usize)
        requires
            self.old_space().segs().len() + self.nursery_space().segs().len() <= usize::MAX,
        ensures
            r == self.old_space().segs().len() + self.nursery_space().segs().len(),
    {
        self.old.segments.len() + self.nursery.segments.len()
    }

    /// Segments held by old space.
    pub fn old_segments(&self) -> (r: usize)
        ensures
            r == self.old_space().segs().len(),
    {
        self.old.segments.len()
    }

    /// The most bytes that the nursery held at once since the heap was made.
    pub fn nursery_high_water(&self) -> (r: u64)
        ensures
            r == self.peak(),
    {
        if self.nursery.bytes > self.nursery_high_water {
            self.nursery.bytes
        } else {
            self.nursery_high_water
        }
    }

    /// How many evaluations are nested.
    pub fn eval_depth(&self) -> (r: u32)
        ensures
            r == self.eval_depth_of(),
    {
        self.depth
    }

    /// Whether an object of this heap is alive at `at`.
    pub fn contains(&self, at: Place) -> (r: bool)
        ensures
            r == self.live(at),
    {
        match at {
            Place::Old(s, o) => self.old.contains(s, o),
            Place::Young(s, o) => self.nursery.contains(s, o),
            Place::Region(id, s, o) => match self.region_position(id) {
                Some(r) => self.regions[r].space.contains(s, o),
                None => false,
            },
            _ => false,
        }
    }

    /// Whether `at` is live nursery memory.
    pub fn is_young(&self, at: Place) -> (r: bool)
        ensures
            r == (at is Young && self.live(at)),
    {
        match at {
            Place::Young(s, o) => self.nursery.contains(s, o),
            _ => false,
        }
    }

    // -- hosts ---------------------------------------------------------------

    /// Park a host and return its slot. It is kept where an allocation would be
    /// made: with the evaluation, with the region being filled, or with the heap.
    pub fn push_host(&mut self, host: Host) -> (r: HostIndex)
        requires
            old(self).wf(),
        ensures
            final(self).grown_from(old(self)),
            final(self).hosted(r) == Some(host),
            r == if old(self).allocates_young() {
                HostIndex::Young(old(self).eval_hosts().len() as usize)
            } else if old(self).filling() != 0 {
                HostIndex::Region(
                    old(self).filling(),
                    old(self).live_regions()[region_from(
                        old(self).live_regions(),
                        old(self).filling(),
                        0,
                    )].parked().len() as usize,
                )
            } else {
                HostIndex::Old(old(self).old_hosts().len() as usize)
            },
            host_parked(old(self), final(self), host),
            forall|i: HostIndex|
                old(self).hosted(i) is Some ==> #[trigger] final(self).hosted(i) == old(
                    self,
                ).hosted(i),
    {
        if self.depth > 0 && self.force_old == 0 {
            let n: usize = self.young_hosts.len();
            self.young_hosts.push(host);
            return HostIndex::Young(n);
        }
        if self.bind_region != 0 {
            let id: u64 = self.bind_region;
            proof {
                lemma_region_from(self.regions@, id, 0);
            }
            if let Some(r) = self.region_position(id) {
                let ghost before = self.regions@;
                let n: usize = self.regions[r].hosts.len();
                self.regions[r].hosts.push(host);
                proof {
                    assert forall|k: u64| #[trigger] region_from(before, k, 0) == region_from(
                        self.regions@,
                        k,
                        0,
                    ) by {
                        lemma_region_from_ids(before, self.regions@, k, 0);
                    }
                    assert forall|k: u64| true implies {
                        let p = #[trigger] region_from(before, k, 0);
                        -1 <= p < before.len()
                    } by {
                        lemma_region_from(before, k, 0);
                    }
                    assert(region_from(before, id, 0) == r);
                    assert forall|i: int| 0 <= i < before.len() && i != r implies (
                    #[trigger] self.regions@[i]) == before[i] by {}
                }
                return HostIndex::Region(id, n);
            }
        }
        let n: usize = self.hosts.len();
        self.hosts.push(host);
        HostIndex::Old(n)
    }

    /// What is parked in a slot.
    pub open(crate) spec fn hosted(&self, idx: HostIndex) -> Option<Host> {
        match idx {
            HostIndex::Old(i) => if i < self.hosts@.len() {
                Some(self.hosts@[i as int])
            } else {
                None
            },
            HostIndex::Young(i) => if i < self.young_hosts@.len() {
                Some(self.young_hosts@[i as int])
            } else {
                None
            },
            HostIndex::Region(id, i) => {
                let r = region_from(self.regions@, id, 0);
                if 0 <= r < self.regions@.len() && i < self.regions@[r].hosts@.len() {
                    Some(self.regions@[r].hosts@[i as int])
                } else {
                    None
                }
            },
        }
    }

    /// What is parked in a slot.
    pub fn host(&self, idx: HostIndex) -> (r: Option<&Host>)
        ensures
            match r {
                Some(h) => self.hosted(idx) == Some(*h),
                None => self.hosted(idx) is None,
            },
    {
        match idx {
            HostIndex::Old(i) => if i < self.hosts.len() {
                Some(&self.hosts[i])
            } else {
                None
            },
            HostIndex::Young(i) => if i < self.young_hosts.len() {
                Some(&self.young_hosts[i])
            } else {
                None
            },
            HostIndex::Region(id, i) => match self.region_position(id) {
                Some(r) => if i < self.regions[r].hosts.len() {
                    Some(&self.regions[r].hosts[i])
                } else {
                    None
                },
                None => None,
            },
        }
    }

    /// Lend what is parked in a slot to `f`.
    pub fn with_host<R, F: FnOnce(&Host) -> R>(&self, idx: HostIndex, f: F) -> (r: Option<R>)
        requires
            self.hosted(idx) matches Some(h) ==> call_requires(f, (&h,)),
        ensures
            match r {
                Some(x) => self.hosted(idx) matches Some(h) && call_ensures(f, (&h,), x),
                None => self.hosted(idx) is None,
            },
    {
        match self.host(idx) {
            Some(h) => Some(f(h)),
            None => None,
        }
    }

    /// How many hosts the first `n` regions keep.
    pub open(crate) spec fn hosts_of_regions(regions: Seq<BindRegion>, n: nat) -> nat
        decreases n,
    {
        if n == 0 || n > regions.len() {
            0
        } else {
            Self::hosts_of_regions(regions, (n - 1) as nat) + regions[n - 1].hosts@.len()
        }
    }

    /// How many hosts there are: the heap's, the evaluation's and the regions'.
    pub open(crate) spec fn hosts_in_all(&self) -> nat {
        self.hosts@.len() + self.young_hosts@.len() + Self::hosts_of_regions(
            self.regions@,
            self.regions@.len(),
        )
    }

    proof fn lemma_hosts_of_regions(regions: Seq<BindRegion>, m: nat, n: nat)
        requires
            m <= n <= regions.len(),
        ensures
            Self::hosts_of_regions(regions, m) <= Self::hosts_of_regions(regions, n),
        decreases n,
    {
        if m < n {
            Self::lemma_hosts_of_regions(regions, m, (n - 1) as nat);
        }
    }

    /// How many hosts there are.
    pub fn host_count(&self) -> (r: usize)
        requires
            self.hosts_in_all() <= usize::MAX,
        ensures
            r == self.hosts_in_all(),
    {
        let mut sum: usize = self.hosts.len() + self.young_hosts.len();
        let mut i: usize = 0;
        while i < self.regions.len()
            invariant
                i <= self.regions@.len(),
                self.hosts_in_all() <= usize::MAX,
                sum == self.hosts@.len() + self.young_hosts@.len() + Self::hosts_of_regions(
                    self.regions@,
                    i as nat,
                ),
            decreases self.regions@.len() - i,
        {
            proof {
                Self::lemma_hosts_of_regions(self.regions@, (i + 1) as nat, self.regions@.len());
            }
            sum = sum + self.regions[i].hosts.len();
            i = i + 1;
        }
        sum
    }

    // -- evaluations ---------------------------------------------------------

    /// Begin an evaluation. Returns whether it is the outermost one.
    pub fn enter(&mut self) -> (r: bool)
        requires
            old(self).wf(),
            old(self).eval_depth_of() < u32::MAX,
        ensures
            final(self).wf(),
            entered(old(self), final(self)),
            r == (old(self).eval_depth_of() == 0),
    {
        let outermost = self.depth == 0;
        if outermost {
            self.snap = NurserySnap {
                used: self.nursery.open_used(),
                len: self.nursery.segments.len(),
                hosts: self.young_hosts.len(),
            };
        }
        self.depth = self.depth + 1;
        outermost
    }

    /// End an evaluation. The outermost one gives the nursery back.
    pub fn leave(&mut self, outermost: bool)
        requires
            old(self).wf(),
            old(self).eval_depth_of() > 0,
            outermost == (old(self).eval_depth_of() == 1),
        ensures
            final(self).wf(),
            left(old(self), final(self)),
    {
        self.depth = self.depth - 1;
        if !outermost {
            return;
        }
        let snap = self.snap;
        if self.nursery.segments.len() == snap.len && self.nursery.open_used() == snap.used
            && self.young_hosts.len() == snap.hosts {
            self.nursery.objects = 0;
            assert(self.nursery.rewound()) by {
                assert forall|i: int| 0 <= i < self.nursery.segments@.len() implies (
                #[trigger] self.nursery.segments@[i]).used == 0 by {
                    if i < snap.len - 1 {
                        assert(old(self).nursery.segments@[i].used == 0);
                    }
                }
            }
            return;
        }
        self.leave_slow(snap);
    }

    /// Give the nursery back after an evaluation that used it.
    fn leave_slow(&mut self, snap: NurserySnap)
        requires
            old(self).depth == 0,
            old(self).nursery.wf(),
            snap == old(self).snap,
            snap.used == 0,
            snap.hosts == 0,
            snap.len <= old(self).nursery.segments@.len(),
            forall|i: int|
                0 <= i < snap.len - 1 ==> (#[trigger] old(self).nursery.segments@[i]).used == 0,
        ensures
            final(self).nursery.wf(),
            final(self).nursery_empty(),
            final(self).nursery.segments@.len() == kept_segments(
                old(self).nursery.segments@.len(),
                snap.len as nat,
                old(self).young_hosts@.len() == 0,
            ),
            final(self).nursery_high_water == if old(self).nursery.bytes > old(
                self,
            ).nursery_high_water {
                old(self).nursery.bytes
            } else {
                old(self).nursery_high_water
            },
            final(self).old == old(self).old,
            final(self).regions == old(self).regions,
            final(self).spare_regions == old(self).spare_regions,
            final(self).hosts == old(self).hosts,
            final(self).depth == old(self).depth,
            final(self).force_old == old(self).force_old,
            final(self).snap == old(self).snap,
            final(self).bind_region == old(self).bind_region,
            final(self).next_region_id == old(self).next_region_id,
    {
        let live: u64 = self.nursery.bytes;
        if live > self.nursery_high_water {
            self.nursery_high_water = live;
        }
        if self.nursery.segments.len() == snap.len && self.young_hosts.len() == snap.hosts {
            self.rewind_nursery(snap);
        } else {
            self.reset_nursery(snap);
        }
    }

    /// Rewind the open segment: no segment was opened, and no host parked.
    fn rewind_nursery(&mut self, snap: NurserySnap)
        requires
            old(self).nursery.wf(),
            snap.used == 0,
            snap.len == old(self).nursery.segments@.len(),
            forall|i: int|
                0 <= i < snap.len - 1 ==> (#[trigger] old(self).nursery.segments@[i]).used == 0,
            old(self).young_hosts@.len() == 0,
        ensures
            final(self).nursery.wf(),
            final(self).nursery_empty(),
            final(self).nursery.segments@.len() == old(self).nursery.segments@.len(),
            *final(self) == (CelHeap { nursery: final(self).nursery, ..*old(self) }),
    {
        let n: usize = self.nursery.segments.len();
        if n > 0 {
            let capacity: usize = self.nursery.segments[n - 1].capacity;
            self.nursery.segments[n - 1] = Segment { used: snap.used, capacity };
        }
        self.nursery.bytes = 0;
        self.nursery.objects = 0;
    }

    /// Release the segments that the evaluation opened, but for a few, and the hosts
    /// that it parked.
    fn reset_nursery(&mut self, snap: NurserySnap)
        requires
            old(self).nursery.wf(),
            snap.used == 0,
            snap.hosts == 0,
            snap.len <= old(self).nursery.segments@.len(),
            forall|i: int|
                0 <= i < snap.len - 1 ==> (#[trigger] old(self).nursery.segments@[i]).used == 0,
        ensures
            final(self).nursery.wf(),
            final(self).nursery_empty(),
            final(self).nursery.segments@.len() == retained_segments(
                old(self).nursery.segments@.len(),
                snap.len as nat,
            ),
            *final(self) == (CelHeap {
                nursery: final(self).nursery,
                young_hosts: final(self).young_hosts,
                ..*old(self)
            }),
    {
        let n: usize = self.nursery.segments.len();
        let mut i: usize = 0;
        while i < n
            invariant
                i <= n,
                n == self.nursery.segments@.len(),
                n == old(self).nursery.segments@.len(),
                snap.used == 0,
                snap.len <= n,
                self.nursery.wf(),
                forall|j: int|
                    0 <= j < snap.len - 1 ==> (#[trigger] self.nursery.segments@[j]).used == 0,
                forall|j: int| 0 <= j < i ==> (#[trigger] self.nursery.segments@[j]).used == 0,
                self.nursery.objects == old(self).nursery.objects,
                self.nursery.bytes == old(self).nursery.bytes,
                *self == (CelHeap { nursery: self.nursery, ..*old(self) }),
            decreases n - i,
        {
            let capacity: usize = self.nursery.segments[i].capacity;
            if i < snap.len {
                if i + 1 == snap.len {
                    self.nursery.segments[i] = Segment { used: snap.used, capacity };
                }
            } else {
                self.nursery.segments[i] = Segment { used: 0, capacity };
            }
            i = i + 1;
        }
        let keep: usize = if n < NURSERY_KEEP_SEGMENTS {
            n
        } else {
            NURSERY_KEEP_SEGMENTS
        };
        let retain: usize = if snap.len > keep {
            snap.len
        } else {
            keep
        };
        self.nursery.segments.truncate(retain);
        self.nursery.bytes = 0;
        self.nursery.objects = 0;
        self.young_hosts.truncate(snap.hosts);
    }
}

/// The nursery segments that a reset keeps: those that were there, and at least
/// two of those that there are.
pub open spec fn retained_segments(n: nat, snap_len: nat) -> nat {
    let keep = if n < NURSERY_KEEP_SEGMENTS {
        n
    } else {
        NURSERY_KEEP_SEGMENTS as nat
    };
    if snap_len > keep {
        snap_len
    } else {
        keep
    }
}

/// The nursery segments after an evaluation that used the nursery.
pub open spec fn kept_segments(n: nat, snap_len: nat, no_hosts: bool) -> nat {
    if n == snap_len && no_hosts {
        n
    } else {
        retained_segments(n, snap_len)
    }
}

/// What beginning an evaluation changes.
pub open(crate) spec fn entered(before: &CelHeap, after: &CelHeap) -> bool {
    &&& *after == (CelHeap { depth: after.depth, snap: after.snap, ..*before })
    &&& after.depth == before.depth + 1
    &&& after.snap == if before.depth == 0 {
        NurserySnap {
            used: 0,
            len: before.nursery.segments@.len() as usize,
            hosts: 0,
        }
    } else {
        before.snap
    }
}

/// What parking a host changes: the one table that it goes to.
pub open(crate) spec fn host_parked(before: &CelHeap, after: &CelHeap, host: Host) -> bool {
    if before.allocates_young() {
        &&& *after == (CelHeap { young_hosts: after.young_hosts, ..*before })
        &&& after.young_hosts@ == before.young_hosts@.push(host)
    } else if before.bind_region != 0 {
        let r = region_from(before.regions@, before.bind_region, 0);
        &&& *after == (CelHeap { regions: after.regions, ..*before })
        &&& after.regions@.len() == before.regions@.len()
        &&& after.regions@[r] == (BindRegion {
            hosts: after.regions@[r].hosts,
            ..before.regions@[r]
        })
        &&& after.regions@[r].hosts@ == before.regions@[r].hosts@.push(host)
        &&& forall|i: int|
            0 <= i < before.regions@.len() && i != r ==> (#[trigger] after.regions@[i])
                == before.regions@[i]
    } else {
        &&& *after == (CelHeap { hosts: after.hosts, ..*before })
        &&& after.hosts@ == before.hosts@.push(host)
    }
}

/// What ending an evaluation changes: a nested one only the depth; the outermost
/// one gives the nursery and its hosts back, and leaves old space, the regions and
/// the other hosts alone.
pub open(crate) spec fn left(before: &CelHeap, after: &CelHeap) -> bool {
    &&& after.depth == before.depth - 1
    &&& after.force_old == before.force_old
    &&& after.old == before.old
    &&& after.regions == before.regions
    &&& after.spare_regions == before.spare_regions
    &&& after.hosts == before.hosts
    &&& after.bind_region == before.bind_region
    &&& after.next_region_id == before.next_region_id
    &&& after.snap == before.snap
    &&& if before.depth == 1 {
        &&& after.nursery_empty()
        &&& after.nursery_high_water >= before.nursery_high_water
        &&& after.nursery_high_water == before.nursery_high_water || after.nursery_high_water
            == before.nursery.bytes
        &&& after.nursery_high_water >= before.nursery.bytes
        &&& after.nursery.segments@.len() == kept_segments(
            before.nursery.segments@.len(),
            before.snap.len as nat,
            before.young_hosts@.len() == 0,
        )
    } else {
        &&& after.nursery == before.nursery
        &&& after.young_hosts == before.young_hosts
        &&& after.nursery_high_water == before.nursery_high_water
    }
}

impl Default for CelHeap {
    fn default() -> (r: CelHeap)
        ensures
            r.fresh(),
    {
        CelHeap::new()
    }
}

/// Whether old space is asked for.
pub fn is_forcing_old(heap: &CelHeap) -> (r: bool)
    ensures
        r == (heap.forced() > 0),
{
    heap.force_old > 0
}

/// A heap that is asked once more for old space.
pub open(crate) spec fn forced_once(before: &CelHeap, after: &CelHeap) -> bool {
    *after == (CelHeap { force_old: (before.force_old + 1) as u32, ..*before })
}

/// A heap that is asked once less for old space.
pub open(crate) spec fn released_once(before: &CelHeap, after: &CelHeap) -> bool {
    *after == (CelHeap {
        force_old: (if before.force_old > 0 {
            before.force_old - 1
        } else {
            0
        }) as u32,
        ..*before
    })
}

impl CelHeap {
    /// How many requests for old space are open.
    pub fn old_requests(&self) -> (r: u32)
        ensures
            r == self.forced(),
    {
        self.force_old
    }

    /// Ask for old space, until it is released.
    pub fn request_old(&mut self)
        requires
            old(self).wf(),
            old(self).forced() < u32::MAX,
        ensures
            final(self).wf(),
            forced_once(old(self), final(self)),
    {
        self.force_old = self.force_old + 1;
    }

    /// Release one request for old space, if one is open.
    pub fn release_old(&mut self)
        requires
            old(self).wf(),
        ensures
            final(self).wf(),
            released_once(old(self), final(self)),
    {
        if self.force_old > 0 {
            self.force_old = self.force_old - 1;
        }
    }
}

/// Run `f` on the heap with allocations, and hosts, going to old space.
pub fn with_old_space<R, F: FnOnce(CelHeap) -> (CelHeap, R)>(heap: CelHeap, f: F) -> (r: (CelHeap, R))
    requires
        heap.wf(),
        heap.forced() < u32::MAX,
        forall|h: CelHeap| #[trigger] forced_once(&heap, &h) ==> call_requires(f, (h,)),
    ensures
        exists|h: CelHeap, out: CelHeap|
            #[trigger] forced_once(&heap, &h) && #[trigger] released_once(&out, &r.0)
                && call_ensures(f, (h,), (out, r.1)),
{
    let ghost before = heap;
    let mut inner = heap;
    inner.force_old = inner.force_old + 1;
    let ghost h = inner;
    assert(forced_once(&before, &inner));
    let (mut out, v) = f(inner);
    let ghost after = out;
    assert(call_ensures(f, (h,), (after, v)));
    if out.force_old > 0 {
        out.force_old = out.force_old - 1;
    }
    assert(released_once(&after, &out));
    let r = (out, v);
    assert(forced_once(&heap, &h) && released_once(&after, &r.0) && call_ensures(
        f,
        (h,),
        (after, r.1),
    ));
    r
}

/// One evaluation. It is ended by [`EvalScope::finish`], with its result, or by
/// [`EvalScope::abandon`].
#[derive(Debug)]
pub struct EvalScope {
    outermost: bool,
}

impl EvalScope {
    /// Whether this is the outermost evaluation.
    pub closed spec fn is_outer(&self) -> bool {
        self.outermost
    }

    /// Whether this is the outermost evaluation.
    pub fn is_outermost(&self) -> (r: bool)
        ensures
            r == self.is_outer(),
    {
        self.outermost
    }

    /// End the evaluation and hand out the public form of its result.
    pub fn finish(self, heap: &mut CelHeap, v: Value) -> (r: Value)
        requires
            old(heap).wf(),
            old(heap).eval_depth_of() > 0,
            self.is_outer() == (old(heap).eval_depth_of() == 1),
        ensures
            final(heap).wf(),
            left(old(heap), final(heap)),
            r@ == v@,
            !(r is Interned),
    {
        let out = v.into_public();
        heap.leave(self.outermost);
        out
    }

    /// End an evaluation that has no result.
    pub fn abandon(self, heap: &mut CelHeap)
        requires
            old(heap).wf(),
            old(heap).eval_depth_of() > 0,
            self.is_outer() == (old(heap).eval_depth_of() == 1),
        ensures
            final(heap).wf(),
            left(old(heap), final(heap)),
    {
        heap.leave(self.outermost);
    }
}

/// Begin an evaluation on `heap`.
pub fn enter_eval_on(heap: &mut CelHeap) -> (r: EvalScope)
    requires
        old(heap).wf(),
        old(heap).eval_depth_of() < u32::MAX,
    ensures
        final(heap).wf(),
        entered(old(heap), final(heap)),
        r.is_outer() == (old(heap).eval_depth_of() == 0),
{
    EvalScope { outermost: heap.enter() }
}

/// The region of a context, by the number under which the heap knows it.
#[derive(Debug)]
pub struct BindRegionSlot {
    inner: Option<u64>,
}

impl BindRegionSlot {
    /// The number of the region, if there is one.
    pub closed spec fn region(&self) -> Option<u64> {
        self.inner
    }

    /// A slot without a region.
    pub fn empty() -> (r: BindRegionSlot)
        ensures
            r.region() is None,
    {
        BindRegionSlot { inner: None }
    }

    pub fn is_none(&self) -> (r: bool)
        ensures
            r == self.region() is None,
    {
        self.inner.is_none()
    }

    /// The number of the slot's region. A slot without one gets a spare region of the
    /// heap, or a new one.
    pub fn get_or_insert(&mut self, heap: &mut CelHeap) -> (r: u64)
        requires
            old(heap).wf(),
            old(heap).regions_made() < u64::MAX,
        ensures
            final(heap).wf(),
            final(self).region() == Some(r),
            match old(self).region() {
                Some(id) => r == id && *final(heap) == *old(heap),
                None => {
                    &&& exists|region: BindRegion|
                        #[trigger] attached(old(heap), final(heap), region, r)
                            && region.contents().rewound() && region.parked().len() == 0
                    &&& final(heap).spares() == if old(heap).spares() > 0 {
                        old(heap).spares() - 1
                    } else {
                        0
                    }
                },
            },
    {
        match self.inner {
            Some(id) => id,
            None => {
                let region = match heap.take_spare_region() {
                    Some(r) => r,
                    None => BindRegion::new(),
                };
                let ghost mid = *heap;
                let ghost handed = region;
                let id: u64 = heap.attach_region(region);
                assert(attached(old(heap), heap, handed, id));
                self.inner = Some(id);
                id
            },
        }
    }

    /// Give the slot's region back to the heap.
    pub fn release(self, heap: &mut CelHeap)
        requires
            old(heap).wf(),
        ensures
            final(heap).wf(),
            match self.region() {
                Some(id) => {
                    &&& region_from(final(heap).live_regions(), id, 0) == -1
                    &&& region_dropped(old(heap), final(heap), id)
                    &&& final(heap).spares() == if region_from(old(heap).live_regions(), id, 0) >= 0
                        && old(heap).spares() < SPARE_REGIONS {
                        old(heap).spares() + 1
                    } else {
                        old(heap).spares()
                    }
                },
                None => *final(heap) == *old(heap),
            },
    {
        if let Some(id) = self.inner {
            heap.recycle_region(id);
        }
    }
}

/// Begin an evaluation against a context whose region is in `slot`. Its region
/// belongs to `heap`.
pub fn enter_eval_for(slot: &BindRegionSlot, heap: &mut CelHeap) -> (r: EvalScope)
    requires
        old(heap).wf(),
        old(heap).eval_depth_of() < u32::MAX,
        match slot.region() {
            Some(id) => region_from(old(heap).live_regions(), id, 0) >= 0,
            None => true,
        },
    ensures
        final(heap).wf(),
        entered(old(heap), final(heap)),
        r.is_outer() == (old(heap).eval_depth_of() == 0),
{
    enter_eval_on(heap)
}

/// A heap that knows one region more, under a number of its own.
pub open(crate) spec fn attached(before: &CelHeap, after: &CelHeap, region: BindRegion, id: u64) -> bool {
    &&& id == before.next_region_id + 1
    &&& after.next_region_id == id
    &&& after.regions@ == before.regions@.push(BindRegion { id, ..region })
    &&& after.old == before.old
    &&& after.nursery == before.nursery
    &&& after.depth == before.depth
    &&& after.force_old == before.force_old
    &&& after.snap == before.snap
    &&& after.hosts == before.hosts
    &&& after.young_hosts == before.young_hosts
    &&& after.bind_region == before.bind_region
    &&& after.nursery_high_water == before.nursery_high_water
}

/// A heap without the region of that number. What the others hold is untouched.
pub open(crate) spec fn region_dropped(before: &CelHeap, after: &CelHeap, id: u64) -> bool {
    let p = region_from(before.regions@, id, 0);
    &&& after.regions@ == if p >= 0 {
        before.regions@.remove(p)
    } else {
        before.regions@
    }
    &&& after.bind_region == if before.bind_region == id {
        0
    } else {
        before.bind_region
    }
    &&& after.old == before.old
    &&& after.nursery == before.nursery
    &&& after.depth == before.depth
    &&& after.force_old == before.force_old
    &&& after.snap == before.snap
    &&& after.hosts == before.hosts
    &&& after.young_hosts == before.young_hosts
    &&& after.next_region_id == before.next_region_id
    &&& after.nursery_high_water == before.nursery_high_water
}

impl CelHeap {
    /// How many regions the heap has known.
    pub open(crate) spec fn regions_made(&self) -> u64 {
        self.next_region_id
    }

    /// Know a region, under a number of its own.
    pub(crate) fn attach_region(&mut self, region: BindRegion) -> (id: u64)
        requires
            old(self).wf(),
            old(self).regions_made() < u64::MAX,
            region.wf(),
        ensures
            final(self).wf(),
            attached(old(self), final(self), region, id),
            final(self).spare_regions == old(self).spare_regions,
            region_from(final(self).live_regions(), id, 0) == old(self).live_regions().len(),
    {
        let id: u64 = self.next_region_id + 1;
        self.next_region_id = id;
        let mut r = region;
        r.id = id;
        let ghost before = self.regions@;
        self.regions.push(r);
        proof {
            assert forall|k: u64, i: int|
                0 <= i <= before.len() && k != id implies #[trigger] region_from(
                self.regions@,
                k,
                i,
            ) == region_from(before, k, i) by {
                lemma_region_push(before, r, k, i);
            }
            lemma_region_from(self.regions@, id, 0);
            assert forall|j: int| 0 <= j < before.len() implies (#[trigger] self.regions@[j]).id
                != id by {
                assert(self.regions@[j] == before[j]);
                assert(before[j].id <= old(self).next_region_id);
            }
            assert(self.regions@[before.len() as int].id == id);
            if self.bind_region != 0 {
                lemma_region_from(before, self.bind_region, 0);
                lemma_region_push(before, r, self.bind_region, 0);
            }
        }
        id
    }

    /// Forget a region, and hand it out.
    pub(crate) fn detach_region(&mut self, id: u64) -> (r: Option<BindRegion>)
        requires
            old(self).wf(),
        ensures
            final(self).wf(),
            region_dropped(old(self), final(self), id),
            final(self).spare_regions == old(self).spare_regions,
            match r {
                Some(region) => {
                    let p = region_from(old(self).live_regions(), id, 0);
                    p >= 0 && region == old(self).live_regions()[p] && region.wf()
                },
                None => region_from(old(self).live_regions(), id, 0) == -1,
            },
            region_from(final(self).live_regions(), id, 0) == -1,
    {
        proof {
            lemma_region_from(self.regions@, id, 0);
        }
        if self.bind_region == id {
            self.bind_region = 0;
        }
        match self.region_position(id) {
            Some(i) => {
                let ghost before = self.regions@;
                let region = self.regions.remove(i);
                proof {
                    lemma_region_from(self.regions@, id, 0);
                    lemma_region_from(before, self.bind_region, 0);
                    lemma_region_from(self.regions@, self.bind_region, 0);
                    let p = region_from(before, self.bind_region, 0);
                    if self.bind_region != 0 {
                        let q = if p < i {
                            p
                        } else {
                            p - 1
                        };
                        assert(self.regions@[q].id == self.bind_region);
                    }
                }
                Some(region)
            },
            None => None,
        }
    }

    /// Take a spare region.
    pub(crate) fn take_spare_region(&mut self) -> (r: Option<BindRegion>)
        requires
            old(self).wf(),
        ensures
            final(self).wf(),
            *final(self) == (CelHeap { spare_regions: final(self).spare_regions, ..*old(self) }),
            match r {
                Some(region) => region.wf() && region.contents().rewound() && region.parked().len()
                    == 0 && region.region_id() == 0 && final(self).spares() + 1 == old(
                    self,
                ).spares(),
                None => old(self).spares() == 0 && final(self).spares() == 0,
            },
    {
        self.spare_regions.pop()
    }

    /// How many spare regions there are.
    pub open(crate) spec fn spares(&self) -> nat {
        self.spare_regions@.len()
    }

    /// Forget a region. It is rewound and kept for reuse, unless enough are.
    pub fn recycle_region(&mut self, id: u64)
        requires
            old(self).wf(),
        ensures
            final(self).wf(),
            region_dropped(old(self), final(self), id),
            region_from(final(self).live_regions(), id, 0) == -1,
            final(self).spares() == if region_from(old(self).live_regions(), id, 0) >= 0 && old(
                self,
            ).spares() < SPARE_REGIONS {
                old(self).spares() + 1
            } else {
                old(self).spares()
            },
    {
        if let Some(mut region) = self.detach_region(id) {
            region.rewind();
            if self.spare_regions.len() < SPARE_REGIONS {
                self.spare_regions.push(region);
            }
        }
    }
}

proof fn lemma_region_push(regions: Seq<BindRegion>, r: BindRegion, id: u64, i: int)
    requires
        0 <= i <= regions.len(),
        r.id != id,
    ensures
        region_from(regions.push(r), id, i) == region_from(regions, id, i),
    decreases regions.len() - i,
{
    if i < regions.len() && regions[i].id != id {
        lemma_region_push(regions, r, id, i + 1);
    } else if i == regions.len() {
        assert(region_from(regions.push(r), id, i + 1) == -1);
    }
}

/// A heap that fills a region.
pub open(crate) spec fn filling_region(before: &CelHeap, after: &CelHeap, id: u64) -> bool {
    *after == (CelHeap {
        force_old: (before.force_old + 1) as u32,
        bind_region: id,
        ..*before
    })
}

/// A heap that fills again what it filled before.
pub open(crate) spec fn filled_region(before: &CelHeap, after: &CelHeap, prev: u64) -> bool {
    *after == (CelHeap {
        force_old: (if before.force_old > 0 {
            before.force_old - 1
        } else {
            0
        }) as u32,
        bind_region: prev,
        ..*before
    })
}

/// Run `f` on the heap with allocations, and hosts, going to a region.
pub fn with_bind_region<R, F: FnOnce(CelHeap) -> (CelHeap, R)>(heap: CelHeap, id: u64, f: F) -> (r: (
    CelHeap,
    R,
))
    requires
        heap.wf(),
        heap.forced() < u32::MAX,
        region_from(heap.live_regions(), id, 0) >= 0,
        forall|h: CelHeap| #[trigger] filling_region(&heap, &h, id) ==> call_requires(f, (h,)),
    ensures
        exists|h: CelHeap, out: CelHeap|
            #[trigger] filling_region(&heap, &h, id) && #[trigger] filled_region(
                &out,
                &r.0,
                heap.filling(),
            ) && call_ensures(f, (h,), (out, r.1)),
{
    let prev: u64 = heap.bind_region;
    let ghost before = heap;
    let mut inner = heap;
    inner.force_old = inner.force_old + 1;
    inner.bind_region = id;
    let ghost h = inner;
    assert(filling_region(&before, &inner, id));
    let (mut out, v) = f(inner);
    let ghost after = out;
    assert(call_ensures(f, (h,), (after, v)));
    if out.force_old > 0 {
        out.force_old = out.force_old - 1;
    }
    out.bind_region = prev;
    let r = (out, v);
    assert(filling_region(&heap, &h, id) && filled_region(&after, &r.0, heap.filling())
        && call_ensures(f, (h,), (after, r.1)));
    r
}

/// Whether an object is never reclaimed by a heap: a prebuilt one, or one of a
/// constant pool.
pub fn is_immortal(at: Place) -> (r: bool)
    ensures
        r == (at is Immortal || at is Constant),
{
    match at {
        Place::Immortal(_) | Place::Constant(_, _) => true,
        _ => false,
    }
}

/// Whether a cell of an activation record refers to nothing, to an immortal leaf,
/// or to a leaf that is alive in `heap`.
pub fn assert_frame_cell(heap: &CelHeap, w: &CelRef) -> (r: bool)
    ensures
        r == match *w {
            None => true,
            Some(leaf) => {
                let at = place_of(*leaf);
                at is Immortal || at is Constant || heap.live(at)
            },
        },
{
    match w {
        None => true,
        Some(leaf) => {
            let at = w_place(leaf);
            is_immortal(at) || heap.contains(at)
        },
    }
}

/// Ending the outermost evaluation gives the nursery back and nothing else: what
/// was alive in old space and in the regions is alive, and nothing young is.
pub proof fn leaving_reclaims_the_nursery_alone(before: CelHeap, after: CelHeap, at: Place)
    requires
        before.eval_depth_of() == 1,
        left(&before, &after),
    ensures
        at is Young ==> !after.live(at),
        !(at is Young) ==> after.live(at) == before.live(at),
        after.old_space() == before.old_space(),
        after.live_regions() == before.live_regions(),
        after.nursery_space().object_count() == 0,
        after.nursery_space().byte_count() == 0,
        after.eval_hosts().len() == 0,
        after.old_hosts() == before.old_hosts(),
{
}

/// Ending a nested evaluation reclaims nothing.
pub proof fn leaving_a_nested_evaluation_reclaims_nothing(before: CelHeap, after: CelHeap, at: Place)
    requires
        before.eval_depth_of() > 1,
        left(&before, &after),
    ensures
        after.live(at) == before.live(at),
        after.nursery_space() == before.nursery_space(),
        after.eval_hosts() == before.eval_hosts(),
{
}

/// The peak of the nursery is kept when an evaluation begins and when it ends, and an
/// allocation raises it to what the nursery then holds, if that is more.
pub proof fn the_peak_is_a_maximum(before: CelHeap, after: CelHeap, size: int, at: Place)
    ensures
        entered(&before, &after) ==> after.peak() == before.peak(),
        left(&before, &after) ==> after.peak() == before.peak(),
        allocated_in(&before, &after, size, 8, at) && 0 <= size ==> after.peak() == if before.peak()
            < after.nursery_space().byte_count() {
            after.nursery_space().byte_count()
        } else {
            before.peak()
        },
{
}

/// Whether two heaps differ in what evaluations hold at most: the nursery, its hosts, and
/// the evaluations themselves.
pub open(crate) spec fn only_young_changed(before: &CelHeap, after: &CelHeap) -> bool {
    &&& after.old == before.old
    &&& after.regions@ == before.regions@
    &&& after.spare_regions@ == before.spare_regions@
    &&& after.hosts@ == before.hosts@
    &&& after.bind_region == before.bind_region
    &&& after.next_region_id == before.next_region_id
    &&& after.force_old == before.force_old
}

/// What is done in an evaluation without forcing old space changes what evaluations hold
/// alone: allocating, parking a host, and beginning and ending nested evaluations, one
/// after the other.
pub proof fn evaluations_keep_to_the_nursery(
    before: CelHeap,
    after: CelHeap,
    later: CelHeap,
    size: int,
    align: int,
    at: Place,
    host: Host,
)
    ensures
        before.allocates_young() && allocated_in(&before, &after, size, align, at)
            ==> only_young_changed(&before, &after),
        before.allocates_young() && host_parked(&before, &after, host) ==> only_young_changed(
            &before,
            &after,
        ),
        entered(&before, &after) ==> only_young_changed(&before, &after),
        left(&before, &after) ==> only_young_changed(&before, &after),
        only_young_changed(&before, &after) && only_young_changed(&after, &later)
            ==> only_young_changed(&before, &later),
{
}

/// When the outermost evaluation ends, the heap is what it was when it began: as many
/// objects and bytes are alive, the hosts are the same, what was alive then still is,
/// and nothing young is.
pub proof fn an_evaluation_leaves_nothing_behind(
    start: CelHeap,
    entry: CelHeap,
    end: CelHeap,
    after: CelHeap,
)
    requires
        start.wf(),
        start.eval_depth_of() == 0,
        entered(&start, &entry),
        only_young_changed(&entry, &end),
        end.eval_depth_of() == 1,
        left(&end, &after),
    ensures
        after.objects_alive() == start.objects_alive(),
        after.bytes_alive() == start.bytes_alive(),
        after.hosts_in_all() == start.hosts_in_all(),
        after.old_hosts() == start.old_hosts(),
        after.eval_hosts() == start.eval_hosts(),
        after.live_regions() == start.live_regions(),
        after.old_space() == start.old_space(),
        after.eval_depth_of() == 0,
        forall|at: Place| !(at is Young) ==> #[trigger] after.live(at) == start.live(at),
        forall|at: Place| at is Young ==> !(#[trigger] after.live(at)),
{
    assert(after.eval_hosts() =~= start.eval_hosts());
}

} // verus!
