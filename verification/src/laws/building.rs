//! Leaves, blocks, columns and lists that are built up step by step.

use crate::access::expect_optional;
use crate::column::{RecordSchema, ScalarBank, StrBank, ValueColumn};
use crate::error::ExecutionError;
use crate::key::Key;
use crate::laws::functions::is_public;
use crate::laws::machine::reads_as;
use crate::list::{present, written, ListRef};
use crate::map::{lemma_position, lookup_after_insert, try_build_map, CelMap};
use crate::model::{
    insert_entry, is_key, lookup, position, CoreType, ErrV, ReadError, TypeV, Val, ValueType,
};
use crate::runtime::const_pool::ConstPool;
use crate::runtime::convert::{
    ref_to_key, ref_to_value, type_from_class, value_to_ref, ConvertError,
};
use crate::runtime::heap::{CelHeap, HostIndex};
use crate::runtime::object::{
    list_try_append, map_lookup_string, map_try_insert, new_cel_frame, new_list_with_capacity,
    new_map, new_map_with_capacity, new_opaque, read_pairs, read_ref, ref_view, root_view,
    seal_list, seal_map, CelClass, CelRef, Host, ListStrategy, W_CelFrame, W_ListObject,
    W_MapObject, W_Root,
};
use crate::runtime::object_array::{new_bytes_block, new_items_block, CelBytesBlock, CelItemsBlock};
use crate::value::{Opaque, TypeValue, Value};
use std::sync::Arc;
use vstd::prelude::*;

verus! {

/// Whether the leaves come one out of the other by appending the references in turn.
pub open spec fn appended_in_turn(steps: Seq<W_ListObject>, items: Seq<CelRef>) -> bool {
    &&& steps.len() == items.len() + 1
    &&& forall|i: int|
        0 <= i < items.len() ==> call_ensures(
            list_try_append,
            (#[trigger] steps[i], items[i]),
            (steps[i + 1], true),
        )
}

/// A list leaf that was made with room for a number of references takes that many, in the
/// order in which they come, and no more.
pub proof fn a_list_leaf_grows_to_its_room(
    heap: &mut CelHeap,
    cap: i64,
    steps: Seq<W_ListObject>,
    items: Seq<CelRef>,
    more: CelRef,
    out: (W_ListObject, bool),
    sealed: CelRef,
)
    requires
        call_ensures(new_list_with_capacity, (heap, cap), steps[0]),
        appended_in_turn(steps, items),
        call_ensures(list_try_append, (steps.last(), more), out),
        call_ensures(seal_list, (steps.last(),), sealed),
    ensures
        out.1 <==> (items.len() as int) < cap,
        !out.1 ==> out.0 == steps.last(),
        ref_view(sealed) == Val::List(Seq::new(items.len(), |i: int| ref_view(items[i]))),
{
    lemma_appended(steps, items, items.len());
    assert(Seq::new(items.len(), |i: int| ref_view(items[i])) =~= Seq::new(
        items.len() as nat,
        |i: int| ref_view(items[i]),
    ));
}

proof fn lemma_appended(steps: Seq<W_ListObject>, items: Seq<CelRef>, k: nat)
    requires
        appended_in_turn(steps, items),
        k <= items.len(),
        root_view(W_Root::List(steps[0])) == Val::List(Seq::empty()),
    ensures
        crate::runtime::object::list_room(steps[k as int]) == crate::runtime::object::list_room(
            steps[0],
        ) - k,
        root_view(W_Root::List(steps[k as int])) == Val::List(
            Seq::new(k, |i: int| ref_view(items[i])),
        ),
    decreases k,
{
    if k == 0 {
        assert(Seq::new(0, |i: int| ref_view(items[i])) =~= Seq::<Val>::empty());
    } else {
        lemma_appended(steps, items, (k - 1) as nat);
        let b = steps[k - 1];
        assert(call_ensures(list_try_append, (b, items[k - 1]), (steps[k as int], true)));
        assert(Seq::new((k - 1) as nat, |i: int| ref_view(items[i])).push(ref_view(items[k - 1]))
            =~= Seq::new(k, |i: int| ref_view(items[i])));
    }
}

/// Whether the leaves come one out of the other by inserting the pairs in turn.
pub open spec fn inserted_in_turn(steps: Seq<W_MapObject>, pairs: Seq<(CelRef, CelRef)>) -> bool {
    &&& steps.len() == pairs.len() + 1
    &&& forall|i: int|
        0 <= i < pairs.len() ==> call_ensures(
            map_try_insert,
            (#[trigger] steps[i], pairs[i].0, pairs[i].1),
            (steps[i + 1], true),
        )
}

/// A map leaf that was made with room for a number of pairs takes that many, in the order
/// in which they come, and no more.
pub proof fn a_map_leaf_grows_to_its_room(
    heap: &mut CelHeap,
    cap: i64,
    steps: Seq<W_MapObject>,
    pairs: Seq<(CelRef, CelRef)>,
    more: (CelRef, CelRef),
    out: (W_MapObject, bool),
    sealed: CelRef,
)
    requires
        call_ensures(new_map_with_capacity, (heap, cap), steps[0]),
        inserted_in_turn(steps, pairs),
        call_ensures(map_try_insert, (steps.last(), more.0, more.1), out),
        call_ensures(seal_map, (steps.last(),), sealed),
    ensures
        out.1 <==> (pairs.len() as int) < cap,
        !out.1 ==> out.0 == steps.last(),
        ref_view(sealed) == Val::CelMap(
            Seq::new(pairs.len(), |i: int| (ref_view(pairs[i].0), ref_view(pairs[i].1))),
        ),
{
    lemma_inserted(steps, pairs, pairs.len());
}

proof fn lemma_inserted(steps: Seq<W_MapObject>, pairs: Seq<(CelRef, CelRef)>, k: nat)
    requires
        inserted_in_turn(steps, pairs),
        k <= pairs.len(),
        root_view(W_Root::CelMap(steps[0])) == Val::CelMap(Seq::empty()),
    ensures
        crate::runtime::object::map_room(steps[k as int]) == crate::runtime::object::map_room(
            steps[0],
        ) - k,
        root_view(W_Root::CelMap(steps[k as int])) == Val::CelMap(
            Seq::new(k, |i: int| (ref_view(pairs[i].0), ref_view(pairs[i].1))),
        ),
    decreases k,
{
    if k == 0 {
        assert(Seq::new(0, |i: int| (ref_view(pairs[i].0), ref_view(pairs[i].1))) =~= Seq::<
            (Val, Val),
        >::empty());
    } else {
        lemma_inserted(steps, pairs, (k - 1) as nat);
        let b = steps[k - 1];
        assert(call_ensures(
            map_try_insert,
            (b, pairs[k - 1].0, pairs[k - 1].1),
            (steps[k as int], true),
        ));
        assert(Seq::new((k - 1) as nat, |i: int| (ref_view(pairs[i].0), ref_view(pairs[i].1))).push(
            (ref_view(pairs[k - 1].0), ref_view(pairs[k - 1].1)),
        ) =~= Seq::new(k, |i: int| (ref_view(pairs[i].0), ref_view(pairs[i].1))));
    }
}

/// A frame has a cell for every slot and every place of the stack, all of them empty; the
/// stack begins behind the slots.
pub proof fn a_frame_has_its_cells(
    heap: &mut CelHeap,
    slots: i64,
    stack: i64,
    f: W_CelFrame,
)
    requires
        call_ensures(new_cel_frame, (heap, slots, stack), f),
        slots >= 0,
        stack >= 0,
        slots + stack <= usize::MAX,
    ensures
        f.locals_stack_w.cells() == slots + stack,
        f.valuestackdepth == slots,
        f.n_slots == slots,
        f.last_instr == -1,
        f.vable_token == 0,
        forall|i: int| 0 <= i < slots + stack ==> (#[trigger] f.locals_stack_w.cell(i)) is None,
{
}

/// A block takes eight bytes for its length and then eight for every reference, or one for
/// every byte, as one object. What it holds is what it was made of.
pub proof fn a_block_takes_the_room_of_its_items(
    h1: &mut CelHeap,
    values: Vec<CelRef>,
    b: CelItemsBlock,
    h2: &mut CelHeap,
    bytes: Arc<Vec<u8>>,
    c: CelBytesBlock,
)
    requires
        call_ensures(new_items_block, (h1, &values), b),
        call_ensures(new_bytes_block, (h2, &bytes), c),
        8 + 8 * values@.len() <= isize::MAX - 8,
        8 + bytes@.len() <= isize::MAX - 8,
        old(h1).nursery_space().byte_count() + 8 + 8 * values@.len() <= u64::MAX,
        old(h2).nursery_space().byte_count() + 8 + bytes@.len() <= u64::MAX,
        old(h1).nursery_space().object_count() < u64::MAX,
        old(h2).nursery_space().object_count() < u64::MAX,
    ensures
        crate::runtime::object_array::items_of(b) == values@,
        crate::runtime::object_array::bytes_of(c) == bytes@,
        old(h1).eval_depth_of() > 0 && old(h1).forced() == 0 ==> {
            let (x, y) = (old(h1).nursery_space(), final(h1).nursery_space());
            &&& y.byte_count() == x.byte_count() + 8 + 8 * values@.len()
            &&& y.object_count() == x.object_count() + 1
        },
        old(h2).eval_depth_of() > 0 && old(h2).forced() == 0 ==> {
            let (x, y) = (old(h2).nursery_space(), final(h2).nursery_space());
            &&& y.byte_count() == x.byte_count() + 8 + bytes@.len()
            &&& y.object_count() == x.object_count() + 1
        },
{
}

/// When the outermost evaluation ends the nursery keeps two of its segments, or all where
/// it has fewer, and never fewer than it had when the evaluation began.
pub proof fn the_nursery_keeps_some_segments(
    h: &mut CelHeap,
    g: &mut CelHeap,
    first: bool,
)
    requires
        call_ensures(CelHeap::enter, (h,), first),
        call_ensures(CelHeap::leave, (g, true), ()),
        old(h).eval_depth_of() == 0,
        old(g).eval_depth_of() == 1,
        old(g).grown_from(final(h)),
        old(h).nursery_space().segs().len() <= usize::MAX,
    ensures
        ({
            let began = old(h).nursery_space().segs().len();
            let ended = old(g).nursery_space().segs().len();
            let kept = final(g).nursery_space().segs().len();
            &&& kept >= began
            &&& ended >= 2 ==> kept >= 2
            &&& ended > began ==> kept <= ended && (kept == began || kept <= 2)
        }),
{
}

/// A constant becomes a leaf that is read as its value; the small integers, the booleans,
/// null and everything that has parts do not.
pub proof fn constants_become_leaves(pool: &mut ConstPool, v: Value, r: CelRef)
    requires
        call_ensures(ConstPool::intern, (pool, &v), r),
    ensures
        match v {
            Value::Int(i) => if -5 <= i <= 256 {
                r is None
            } else {
                ref_view(r) == Val::Int(i)
            },
            Value::UInt(u) => ref_view(r) == Val::UInt(u),
            Value::Float(d) => ref_view(r) == Val::Double(d),
            Value::String(s) => ref_view(r) == Val::Str(s@),
            Value::Bytes(b) => ref_view(r) == Val::Bytes(b@),
            Value::Duration(d) => if -0x8000_0000_0000_0000 <= d@ <= 0x7fff_ffff_ffff_ffff {
                ref_view(r) == Val::Duration(d@)
            } else {
                r is None
            },
            Value::Timestamp(t) => if -0x8000_0000_0000_0000 <= t@.nanos
                <= 0x7fff_ffff_ffff_ffff {
                ref_view(r) matches Val::Timestamp(u) && u.nanos == t@.nanos && !u.leap
                    && u.offset == t@.offset
            } else {
                r is None
            },
            Value::Interned(w) => r == Some(w),
            _ => r is None,
        },
        r is None ==> final(pool).block_count() == old(pool).block_count(),
{
}

/// What is no optional is reported by its type: a host object by the name that it has, a
/// type as a type, everything else by the name of its sort.
pub proof fn what_is_no_optional_is_reported(
    v: Value,
    r: Result<&crate::value::OptionalValue, ExecutionError>,
    t: ValueType,
    name: &'static str,
)
    requires
        call_ensures(expect_optional, (&v,), r),
        call_ensures(Value::type_of, (&v,), t),
        call_ensures(ValueType::name, (t,), name),
        !(v@ is Optional),
    ensures
        r matches Err(e) && e@ == if is_public(v) && v@ is Type {
            ErrV::UnexpectedType("type"@, "optional_type"@)
        } else if is_public(v) && v@ is Host {
            if v@->Host_0 == "optional_type"@ {
                ErrV::FunctionError("optional"@, "failed to downcast"@)
            } else {
                ErrV::UnexpectedType(v@->Host_0, "optional_type"@)
            }
        } else {
            ErrV::UnexpectedType(name@, "optional_type"@)
        },
{
}

/// Why a reference is no key, or no value.
pub proof fn unreadable_references_are_reported(
    w: CelRef,
    k: Result<Key, ConvertError>,
    v: Result<Value, ConvertError>,
)
    requires
        call_ensures(ref_to_key, (&w,), k),
        call_ensures(ref_to_value, (&w,), v),
    ensures
        k matches Ok(x) ==> (v matches Ok(y) && x@ == y@),
        v matches Err(e) ==> (k matches Err(f) && match (e, f) {
            (ConvertError::Corrupt(a), ConvertError::Corrupt(b)) => a@ == b@,
            (ConvertError::Unsupported(a), ConvertError::Unsupported(b)) => a@ == b@,
            _ => false,
        }),
        v is Ok && k is Err ==> !is_key(v->Ok_0@) && (k matches Err(ConvertError::Corrupt(s))
            && s@ == "map key"@),
        match w {
            None => v matches Err(ConvertError::Corrupt(s)) && s@ == "null pointer"@,
            Some(x) => match *x {
                W_Root::IntColumn(_) | W_Root::Frame(_) => (v matches Err(
                    ConvertError::Unsupported(s),
                ) && s@ == "class"@),
                W_Root::Timestamp(t) => v is Ok <==> -86_400 < (t.off_s as i32) < 86_400,
                _ => true,
            },
        },
        v matches Ok(y) ==> is_public(y),
{
}

/// A class that is a type is read as that type. The class of host objects is read as a type
/// of its own name; structs, frames and columns are no types.
pub proof fn classes_are_read_as_types(c: CelClass, r: Result<TypeValue, ReadError>)
    requires
        call_ensures(type_from_class, (c,), r),
    ensures
        c == CelClass::Opaque ==> (r matches Ok(t) && t@ == TypeV::Opaque("opaque"@)),
        r is Err <==> c == CelClass::Struct || c == CelClass::Frame || c == CelClass::IntColumn,
        r matches Err(e) ==> e == ReadError::Type,
        c == CelClass::Optional ==> (r matches Ok(t) && t@ == TypeV::Core(CoreType::Optional)),
{
}

/// A host that is parked and then put behind a leaf is read back as what it is.
pub proof fn a_host_is_read_back(
    h1: &mut CelHeap,
    h2: &mut CelHeap,
    host: Host,
    idx: HostIndex,
    w_type: CelRef,
    leaf: CelRef,
)
    requires
        call_ensures(CelHeap::push_host, (h1, host), idx),
        *old(h2) == *final(h1),
        call_ensures(new_opaque, (h2, w_type, idx), leaf),
    ensures
        match host {
            Host::Object(o) => reads_as(leaf, Val::Host(o.runtime_type@, o.token)),
            Host::OpaqueType(name) => reads_as(leaf, Val::Type(TypeV::Opaque(name@))),
            Host::StructType(name) => reads_as(leaf, Val::Type(TypeV::Struct(name@))),
            Host::List(_) | Host::CelMap(_) => read_ref(leaf) is Err,
        },
{
}

/// The name of an opaque value's type.
pub proof fn opaque_values_name_their_type(o: Opaque, name: &str)
    requires
        call_ensures(Opaque::runtime_type_name, (&o,), name),
    ensures
        match o {
            Opaque::Optional(_) => name@ == "optional_type"@,
            Opaque::Type(_) => name@ == "type"@,
            Opaque::Host(h) => name@ == h.runtime_type@,
        },
{
}

/// A name finds in a map leaf the very reference that it was made with.
pub proof fn a_map_leaf_refers_to_its_values(
    heap: &mut CelHeap,
    pairs: Vec<(CelRef, CelRef)>,
    r: CelRef,
    m: W_MapObject,
    name: &str,
    found: Option<CelRef>,
    i: int,
)
    requires
        call_ensures(new_map, (heap, &pairs), r),
        r matches Some(w) && *w == W_Root::CelMap(m),
        call_ensures(map_lookup_string, (&m, name), found),
        0 <= i < pairs@.len(),
        ref_view(pairs@[i].0) == Val::Str(name@),
        forall|j: int| 0 <= j < i ==> ref_view((#[trigger] pairs@[j]).0) != Val::Str(name@),
    ensures
        found == Some(pairs@[i].1),
{
    let entries = crate::runtime::object::ref_pairs_view(pairs@);
    lemma_position(entries, Val::Str(name@));
    let p = position(entries, Val::Str(name@));
    assert(entries[i].0 == Val::Str(name@));
    assert(0 <= p <= i);
    assert(entries[p].0 == Val::Str(name@));
    assert(ref_view(pairs@[p].0) == Val::Str(name@));
    assert(p == i);
    assert((2 * p + 1) % 2 == 1 && (2 * p + 1) / 2 == p);
}

/// A map leaf is read as a map that has under each key the last of the values that were
/// paired with it.
pub proof fn the_last_of_equal_keys_is_read(
    heap: &mut CelHeap,
    pairs: Vec<(CelRef, CelRef)>,
    r: CelRef,
    ks: Seq<Val>,
    vs: Seq<Val>,
    v: Result<Value, ConvertError>,
    i: int,
)
    requires
        call_ensures(new_map, (heap, &pairs), r),
        call_ensures(ref_to_value, (&r,), v),
        ks.len() == pairs@.len() && vs.len() == pairs@.len(),
        forall|j: int|
            0 <= j < pairs@.len() ==> reads_as((#[trigger] pairs@[j]).0, ks[j]) && is_key(ks[j])
                && reads_as(pairs@[j].1, vs[j]),
        0 <= i < ks.len(),
        forall|j: int| i < j < ks.len() ==> #[trigger] ks[j] != ks[i],
    ensures
        v matches Ok(x) && x@ matches Val::CelMap(m) && lookup(m, ks[i]) == Some(vs[i]),
{
    let slots = crate::runtime::object::flattened(pairs@);
    lemma_last_is_read(slots, pairs@.len(), pairs@, ks, vs, i);
}

proof fn lemma_last_is_read(
    slots: Seq<CelRef>,
    n: nat,
    pairs: Seq<(CelRef, CelRef)>,
    ks: Seq<Val>,
    vs: Seq<Val>,
    i: int,
)
    requires
        slots == crate::runtime::object::flattened(pairs),
        n <= pairs.len(),
        ks.len() == pairs.len() && vs.len() == pairs.len(),
        forall|j: int|
            0 <= j < pairs.len() ==> reads_as((#[trigger] pairs[j]).0, ks[j]) && is_key(ks[j])
                && reads_as(pairs[j].1, vs[j]),
        0 <= i < ks.len(),
        forall|j: int| i < j < ks.len() ==> #[trigger] ks[j] != ks[i],
    ensures
        read_pairs(slots, n, false) matches Ok(m) && (i < n ==> lookup(m, ks[i]) == Some(vs[i])),
    decreases n,
{
    if n > 0 {
        lemma_last_is_read(slots, (n - 1) as nat, pairs, ks, vs, i);
        let j = n - 1;
        assert((2 * n - 2) % 2 == 0 && (2 * n - 2) / 2 == j);
        assert((2 * n - 1) % 2 == 1 && (2 * n - 1) / 2 == j);
        assert(slots[2 * n - 2] == pairs[j].0 && slots[2 * n - 1] == pairs[j].1);
        let m = read_pairs(slots, j as nat, false)->Ok_0;
        assert(reads_as(pairs[j].0, ks[j]));
        lookup_after_insert(m, ks[j], vs[j], ks[i]);
        assert(read_pairs(slots, n, false) == Ok::<Seq<(Val, Val)>, ReadError>(
            insert_entry(m, ks[j], vs[j]),
        ));
    }
}

/// A record has under each of its schema's keys what that key's column has in its row.
pub proof fn a_record_is_a_row_of_its_columns(
    keys: Vec<Key>,
    columns: Vec<ValueColumn>,
    schema: Arc<RecordSchema>,
    row: usize,
    m: CelMap,
    f: usize,
    e: Option<(Key, Value)>,
    v: Value,
)
    requires
        call_ensures(RecordSchema::new, (keys, columns), *schema),
        keys@.len() == columns@.len(),
        call_ensures(CelMap::record, (schema, row), m),
        call_ensures(CelMap::entry, (&m, f), e),
        f < columns@.len(),
        call_ensures(ValueColumn::value_at, (&columns@[f as int], row), v),
    ensures
        e matches Some((k, x)) && k@ == keys@[f as int]@ && x@ == v@,
        m@.len() == keys@.len(),
{
}

/// A column of strings has in each row the string of the row's code.
pub proof fn a_string_column_has_the_strings_of_its_codes(
    codes: Arc<[i64]>,
    strings: Arc<[Arc<String>]>,
    bank: Arc<StrBank>,
    i: usize,
    v: Value,
    words: Arc<[i64]>,
    w: Value,
)
    requires
        call_ensures(StrBank::new, (codes, strings), *bank),
        call_ensures(ValueColumn::value_at, (&ValueColumn::Str(bank), i), v),
        i < codes@.len(),
        call_ensures(
            ValueColumn::value_at,
            (&ValueColumn::Scalar { bank: ScalarBank::Int, words }, i),
            w,
        ),
        i < words@.len(),
    ensures
        v@ == Val::Str(strings@[codes@[i as int] as int]@),
        w@ == Val::Int(words@[i as int]),
{
}

/// A list that is filled has what the writer gave for the places, in their order, without
/// those for which it gave nothing.
pub proof fn a_list_is_filled_in_order<E, F: Fn(usize) -> Result<Option<i64>, E>>(
    n: usize,
    write: F,
    given: Seq<Option<i64>>,
    places: Seq<int>,
    r: Result<ListRef, E>,
)
    requires
        call_ensures(ListRef::try_fill_ints::<E, F>, (n, write), r),
        given.len() == n,
        forall|i: usize, o: Result<Option<i64>, E>|
            i < n && #[trigger] call_ensures(write, (i,), o) ==> o == Ok::<Option<i64>, E>(
                given[i as int],
            ),
        forall|j: int| 0 <= j < places.len() ==> 0 <= #[trigger] places[j] < n,
        forall|j: int, k: int| 0 <= j < k < places.len() ==> places[j] < places[k],
        forall|i: int|
            0 <= i < n ==> ((#[trigger] given[i]) is Some <==> places.contains(i)),
    ensures
        r matches Ok(l) && l@.len() == places.len() && forall|j: int|
            0 <= j < places.len() ==> (given[places[j]] matches Some(x) && #[trigger] l@[j]
                == Val::Int(x)),
{
    match r {
        Ok(l) => {
            let outs = choose|outs: Seq<Option<i64>>|
                outs.len() == n && #[trigger] written(write, outs) && l@
                    == crate::list::ints_view(present(outs));
            assert forall|i: int| 0 <= i < n implies #[trigger] outs[i] == given[i] by {
                assert(call_ensures(write, (i as usize,), Ok::<Option<i64>, E>(outs[i])));
            }
            assert(outs =~= given);
            lemma_present(given, places);
            assert forall|j: int| 0 <= j < places.len() implies (given[places[j]] matches Some(x)
                && #[trigger] l@[j] == Val::Int(x)) by {
                assert(present(given)[j] == given[places[j]]->0);
            }
        },
        Err(e) => {
            let outs = choose|outs: Seq<Option<i64>>|
                outs.len() < n && #[trigger] written(write, outs) && call_ensures(
                    write,
                    (outs.len() as usize,),
                    Err::<Option<i64>, E>(e),
                );
            assert(call_ensures(write, (outs.len() as usize,), Err::<Option<i64>, E>(e)));
        },
    }
}

proof fn lemma_present<T>(given: Seq<Option<T>>, places: Seq<int>)
    requires
        forall|j: int| 0 <= j < places.len() ==> 0 <= #[trigger] places[j] < given.len(),
        forall|j: int, k: int| 0 <= j < k < places.len() ==> places[j] < places[k],
        forall|i: int|
            0 <= i < given.len() ==> ((#[trigger] given[i]) is Some <==> places.contains(i)),
    ensures
        present(given).len() == places.len(),
        forall|j: int|
            0 <= j < places.len() ==> given[places[j]] is Some && #[trigger] present(given)[j]
                == given[places[j]]->0,
    decreases given.len(),
{
    if given.len() == 0 {
        if places.len() > 0 {
            assert(0 <= places[0] < given.len());
        }
    } else {
        let n = given.len() - 1;
        let rest = given.drop_last();
        if given[n] is Some {
            assert(places.contains(n));
            let at = choose|j: int| 0 <= j < places.len() && places[j] == n;
            if at < places.len() - 1 {
                assert(places[at] < places[at + 1]);
            }
            let less = places.drop_last();
            assert forall|i: int| 0 <= i < rest.len() implies ((#[trigger] rest[i]) is Some
                <==> less.contains(i)) by {
                assert(rest[i] == given[i]);
                if places.contains(i) {
                    let j = choose|j: int| 0 <= j < places.len() && places[j] == i;
                    assert(less[j] == i);
                }
                if less.contains(i) {
                    let j = choose|j: int| 0 <= j < less.len() && less[j] == i;
                    assert(places[j] == i);
                }
            }
            assert forall|j: int| 0 <= j < less.len() implies 0 <= #[trigger] less[j]
                < rest.len() by {
                assert(places[j] < places[at]);
            }
            lemma_present(rest, less);
            assert forall|j: int| 0 <= j < places.len() implies given[places[j]] is Some
                && #[trigger] present(given)[j] == given[places[j]]->0 by {
                if j < less.len() {
                    assert(present(rest)[j] == rest[less[j]]->0);
                }
            }
        } else {
            assert(!places.contains(n));
            assert forall|j: int| 0 <= j < places.len() implies 0 <= #[trigger] places[j]
                < rest.len() by {
                assert(places.contains(places[j]));
            }
            assert forall|i: int| 0 <= i < rest.len() implies ((#[trigger] rest[i]) is Some
                <==> places.contains(i)) by {
                assert(rest[i] == given[i]);
            }
            lemma_present(rest, places);
            assert forall|j: int| 0 <= j < places.len() implies given[places[j]] is Some
                && #[trigger] present(given)[j] == given[places[j]]->0 by {
                assert(present(rest)[j] == rest[places[j]]->0);
            }
        }
    }
}

/// A list of values is unboxed where it has elements and all of them are integers.
pub proof fn lists_of_integers_are_unboxed(
    heap: &mut CelHeap,
    items: Vec<Value>,
    l: ListRef,
    x: CelRef,
    leaf: W_ListObject,
)
    requires
        call_ensures(ListRef::from_vec, (items,), l),
        call_ensures(value_to_ref, (heap, &Value::List(l)), Ok(x)),
        x matches Some(w) && *w == W_Root::List(leaf),
    ensures
        leaf.strategy_of() == ListStrategy::Ints <==> items@.len() > 0 && forall|i: int|
            0 <= i < items@.len() ==> (#[trigger] items@[i])@ is Int,
{
    assert forall|i: int| 0 <= i < items@.len() implies l@[i] == (#[trigger] items@[i])@ by {}
    if forall|i: int| 0 <= i < items@.len() ==> (#[trigger] items@[i])@ is Int {
        assert forall|i: int| 0 <= i < l@.len() implies (#[trigger] l@[i]) is Int by {
            assert(items@[i]@ is Int);
        }
    }
}

/// A list of values is filled with what the writer gave for the places, in their order; a
/// map is filled as one that is made of the entries that it gave.
pub proof fn values_and_entries_are_filled_in_order<
    E,
    F: Fn(usize) -> Result<Option<Value>, E>,
    G: Fn(usize) -> Result<Option<(Key, Value)>, E>,
>(
    n: usize,
    write: F,
    given: Seq<Value>,
    r: Result<ListRef, E>,
    pair: G,
    entries: Vec<(Key, Value)>,
    m: Result<CelMap, E>,
    made: CelMap,
)
    requires
        call_ensures(ListRef::try_fill_values::<E, F>, (n, write), r),
        given.len() == n,
        forall|i: usize, o: Result<Option<Value>, E>|
            i < n && #[trigger] call_ensures(write, (i,), o) ==> o == Ok::<Option<Value>, E>(
                Some(given[i as int]),
            ),
        call_ensures(try_build_map::<E, G>, (n, pair), m),
        entries@.len() == n,
        forall|i: usize, o: Result<Option<(Key, Value)>, E>|
            i < n && #[trigger] call_ensures(pair, (i,), o) ==> o == Ok::<
                Option<(Key, Value)>,
                E,
            >(Some(entries@[i as int])),
        call_ensures(CelMap::ordered, (entries,), made),
    ensures
        r matches Ok(l) && l@ == Seq::new(n as nat, |i: int| given[i]@),
        m matches Ok(c) && c@ == made@ && c.spec_storage() is Entries
            == made.spec_storage() is Entries,
{
    match r {
        Ok(l) => {
            let outs = choose|outs: Seq<Option<Value>>|
                outs.len() == n && #[trigger] written(write, outs) && l@
                    == crate::list::values_view(present(outs));
            assert forall|i: int| 0 <= i < n implies #[trigger] outs[i] == Some(given[i]) by {
                assert(call_ensures(write, (i as usize,), Ok::<Option<Value>, E>(outs[i])));
            }
            lemma_all_present(outs, given);
            assert(l@ =~= Seq::new(n as nat, |i: int| given[i]@));
        },
        Err(e) => {
            let outs = choose|outs: Seq<Option<Value>>|
                outs.len() < n && #[trigger] written(write, outs) && call_ensures(
                    write,
                    (outs.len() as usize,),
                    Err::<Option<Value>, E>(e),
                );
            assert(call_ensures(write, (outs.len() as usize,), Err::<Option<Value>, E>(e)));
        },
    }
    match m {
        Ok(c) => {
            let outs = choose|outs: Seq<Option<(Key, Value)>>|
                outs.len() == n && #[trigger] written(pair, outs) && c@
                    == crate::model::insert_all(crate::map::pairs_view(present(outs)));
            assert forall|i: int| 0 <= i < n implies #[trigger] outs[i] == Some(entries@[i]) by {
                assert(call_ensures(pair, (i as usize,), Ok::<Option<(Key, Value)>, E>(outs[i])));
            }
            lemma_all_present(outs, entries@);
        },
        Err(e) => {
            let outs = choose|outs: Seq<Option<(Key, Value)>>|
                outs.len() < n && #[trigger] written(pair, outs) && call_ensures(
                    pair,
                    (outs.len() as usize,),
                    Err::<Option<(Key, Value)>, E>(e),
                );
            assert(call_ensures(pair, (outs.len() as usize,), Err::<Option<(Key, Value)>, E>(e)));
        },
    }
}

proof fn lemma_all_present<T>(outs: Seq<Option<T>>, given: Seq<T>)
    requires
        outs.len() == given.len(),
        forall|i: int| 0 <= i < outs.len() ==> #[trigger] outs[i] == Some(given[i]),
    ensures
        present(outs) == given,
    decreases outs.len(),
{
    if outs.len() > 0 {
        assert(outs.last() == Some(given.last()));
        lemma_all_present(outs.drop_last(), given.drop_last());
        assert(given.drop_last().push(given.last()) =~= given);
    } else {
        assert(given =~= Seq::<T>::empty());
    }
}

} // verus!
