//! What the functions on interned values and on leaves of one class give.

use crate::double::Order;
use crate::error::ExecutionError;
use crate::laws::machine::{failed, gave, reads_as};
use crate::laws::members::has_key;
use crate::laws::operators::{fits_int, is_quotient, lemma_quotient};
use crate::list::ListRef;
use crate::map::{lemma_position, CelMap};
use crate::model::{leaf_eq, lookup, position, ErrV, OutV, ReadError, Val};
use crate::ops::Outcome;
use crate::runtime::binop::{
    leaf_position, map_key_refs, map_lookup, values_equal, w_bytes_eq, w_int_div, w_int_rem,
    w_list_add, w_list_eq, w_map_eq, w_null_eq, w_opaque_eq, w_optional_eq, w_string_cmp,
    w_string_eq, w_timestamp_diff, w_uint_div, w_uint_rem, LeafOut,
};
use crate::runtime::error::{CelErrCode, CelError, ErrorSlot};
use crate::runtime::heap::{CelHeap, HostIndex};
use crate::runtime::interned::{
    found_or_missing, interned_binop_result, interned_contains, interned_list_eq, interned_list_get,
    interned_map_lookup_string, interned_opt_select, selected,
};
use crate::runtime::object::{
    clone_ref, list_leaf_view, map_leaf_view, new_double_in, new_int_in, new_int_raw,
    new_list_window, new_map_record, new_opaque, new_uint_in, ref_view, root_view, CelRef, Host,
    ListStrategy, MapStrategy, W_BytesObject, W_ListObject, W_MapObject, W_NullObject, W_Root,
    W_StringObject,
};
use std::sync::Arc;
use vstd::prelude::*;

verus! {

/// The leaf that is referred to.
pub open spec fn inside(w: Arc<W_Root>) -> W_Root {
    *w
}

/// Where two list leaves are compared at once, they are equal as leaves are. They are
/// wherever both are lists and one is unboxed; what is no list is left to others.
pub proof fn list_leaves_are_compared_at_once(
    a: Arc<W_Root>,
    b: Arc<W_Root>,
    r: Option<bool>,
    eq: bool,
    of_lists: bool,
)
    requires
        call_ensures(interned_list_eq, (&a, &b), r),
        call_ensures(values_equal, (&a, &b), eq),
        inside(a) is List && inside(b) is List ==> call_ensures(w_list_eq, (&a, &b), of_lists),
    ensures
        r matches Some(x) ==> x == eq,
        match (inside(a), inside(b)) {
            (W_Root::List(x), W_Root::List(y)) => of_lists == eq && (x.strategy_of()
                == ListStrategy::Ints || y.strategy_of() == ListStrategy::Ints ==> r is Some),
            (W_Root::List(_), _) | (_, W_Root::List(_)) => r is None,
            _ => true,
        },
{
}

/// Leaves of one class are compared as leaves of any are.
pub proof fn leaves_of_a_class_are_compared(
    a: Arc<W_Root>,
    b: Arc<W_Root>,
    eq: bool,
    of_maps: bool,
    of_optionals: bool,
    of_opaques: bool,
    s: W_StringObject,
    t: W_StringObject,
    of_strings: bool,
    cmp_strings: i64,
    p: W_BytesObject,
    q: W_BytesObject,
    of_bytes: bool,
    m: W_NullObject,
    n: W_NullObject,
    of_nulls: bool,
)
    requires
        call_ensures(values_equal, (&a, &b), eq),
        inside(a) is CelMap && inside(b) is CelMap ==> call_ensures(w_map_eq, (&a, &b), of_maps),
        inside(a) is Optional && inside(b) is Optional ==> call_ensures(
            w_optional_eq,
            (&a, &b),
            of_optionals,
        ),
        inside(a) is Opaque && inside(b) is Opaque ==> call_ensures(
            w_opaque_eq,
            (&a, &b),
            of_opaques,
        ),
        call_ensures(w_string_eq, (&s, &t), of_strings),
        call_ensures(w_string_cmp, (&s, &t), cmp_strings),
        call_ensures(w_bytes_eq, (&p, &q), of_bytes),
        call_ensures(w_null_eq, (&m, &n), of_nulls),
    ensures
        inside(a) is CelMap && inside(b) is CelMap ==> of_maps == eq,
        inside(a) is Optional && inside(b) is Optional ==> of_optionals == eq,
        inside(a) is Opaque && inside(b) is Opaque ==> of_opaques == eq,
        of_strings <==> root_view(W_Root::Str(s)) == root_view(W_Root::Str(t)),
        of_bytes <==> root_view(W_Root::Bytes(p)) == root_view(W_Root::Bytes(q)),
        of_strings ==> cmp_strings == 0,
        of_nulls,
{
    lemma_bytes_equal(vstd::utf8::encode_utf8(s.chars@));
}

proof fn lemma_bytes_equal(a: Seq<u8>)
    ensures
        crate::model::bytes_order(a, a) == Order::Equal,
    decreases a.len(),
{
    if a.len() > 0 {
        lemma_bytes_equal(a.drop_first());
    }
}

/// A list leaf holds a leaf where it equals one of its elements; one of unboxed integers
/// holds its integers and nothing else. A map leaf holds its keys, and is not asked for
/// what is no key. No other leaf holds anything.
pub proof fn interned_containers_are_searched(
    c: Arc<W_Root>,
    needle: Arc<W_Root>,
    v: Val,
    r: Result<bool, ExecutionError>,
)
    requires
        call_ensures(interned_contains, (&c, &needle), r),
        reads_as(Some(needle), v),
    ensures
        match inside(c) {
            W_Root::List(l) => {
                let items = list_leaf_view(l);
                let k = root_view(inside(needle));
                &&& r is Ok
                &&& l.strategy_of() == ListStrategy::Ints ==> r->Ok_0 == (k is Int
                    && items.contains(k))
                &&& l.strategy_of() != ListStrategy::Ints ==> r->Ok_0 == exists|i: int|
                    0 <= i < items.len() && leaf_eq(#[trigger] items[i], k)
            },
            W_Root::CelMap(m) => if v is Int || v is UInt || v is Bool || v is Str {
                r matches Ok(b) && b == has_key(map_leaf_view(m), v)
            } else {
                r matches Err(e) && e@ == ErrV::UnsupportedKeyType(v)
            },
            W_Root::Int(_) | W_Root::Str(_) | W_Root::Null(_) | W_Root::Struct(_) => (
            r matches Err(e) && e@ == ErrV::NoSuchOverload),
            _ => true,
        },
{
    assert(crate::runtime::object::read_root(inside(needle)) == Ok::<Val, ReadError>(v));
    match inside(c) {
        W_Root::List(l) => {
            assert(root_view(inside(c)) == Val::List(list_leaf_view(l)));
        },
        W_Root::CelMap(m) => {
            assert(root_view(inside(c)) == Val::CelMap(map_leaf_view(m)));
            let entries = map_leaf_view(m);
            lemma_position(entries, v);
            let p = position(entries, v);
            if p >= 0 {
                assert(entries[p].0 == v);
            }
        },
        _ => {},
    }
}

/// A list leaf that is not over a host gives the element at each of its places, and nothing
/// at any other.
pub proof fn interned_lists_are_indexed(
    h: &mut CelHeap,
    l: W_ListObject,
    i: i64,
    r: Option<CelRef>,
)
    requires
        call_ensures(interned_list_get, (h, &l, i), r),
        l.strategy_of() != ListStrategy::Window,
    ensures
        r is Some <==> 0 <= i < l.len_of(),
        r matches Some(x) ==> ref_view(x) == list_leaf_view(l)[i as int],
        l.strategy_of() == ListStrategy::Object && r is Some ==> r == Some(l.slots_of()[i as int]),
{
}

/// A name finds in a map leaf that holds references the value of the first entry that it is
/// the key of.
pub proof fn interned_maps_are_searched_by_name(
    h: &mut CelHeap,
    m: W_MapObject,
    name: &str,
    r: Option<CelRef>,
)
    requires
        call_ensures(interned_map_lookup_string, (h, &m, name), r),
        m.strategy_of() == MapStrategy::Object,
    ensures
        r is Some <==> has_key(map_leaf_view(m), Val::Str(name@)),
        r matches Some(x) ==> exists|i: int|
            0 <= i < map_leaf_view(m).len() && (#[trigger] map_leaf_view(m)[i]) == (
                Val::Str(name@),
                ref_view(x),
            ),
        *final(h) == *old(h),
{
    let entries = map_leaf_view(m);
    lemma_position(entries, Val::Str(name@));
    let p = position(entries, Val::Str(name@));
    if p >= 0 {
        assert(entries[p].0 == Val::Str(name@));
    }
}

/// Selecting optionally from a map leaf that holds references wraps what is there; what is
/// missing is an error.
pub proof fn interned_fields_are_selected_optionally(
    h: &mut CelHeap,
    w: Arc<W_Root>,
    m: W_MapObject,
    name: &str,
    r: Result<CelRef, ExecutionError>,
    i: int,
)
    requires
        call_ensures(interned_opt_select, (h, &w, name), r),
        inside(w) == W_Root::CelMap(m),
        m.strategy_of() == MapStrategy::Object,
    ensures
        r is Err <==> !has_key(map_leaf_view(m), Val::Str(name@)),
        r matches Err(e) ==> e@ == ErrV::NoSuchKey(name@),
        is_first(map_leaf_view(m), Val::Str(name@), i) && !(map_leaf_view(m)[i].1 is Invalid) ==> (
        r matches Ok(x) && ref_view(x) == Val::Optional(Some(Box::new(map_leaf_view(m)[i].1)))),
{
    lemma_first(map_leaf_view(m), Val::Str(name@), i);
    assert(selected(inside(w), name@, false, old(h).copied_from(), r));
    let found = lookup(map_leaf_view(m), Val::Str(name@));
    assert(found is Some <==> has_key(map_leaf_view(m), Val::Str(name@)));
    assert(found_or_missing(found, name@, false, r));
}

/// Selecting from an optional: an empty one stays empty; in one that holds a map leaf, what
/// is missing is an optional that holds an empty one.
pub proof fn interned_optionals_are_selected_from(
    h: &mut CelHeap,
    w: Arc<W_Root>,
    name: &str,
    r: Result<CelRef, ExecutionError>,
    inner: Option<Arc<W_Root>>,
    m: W_MapObject,
    i: int,
)
    requires
        call_ensures(interned_opt_select, (h, &w, name), r),
        inside(w) matches W_Root::Optional(o) && o.w_value == inner,
        inner matches Some(x) ==> inside(x) == W_Root::CelMap(m) && m.strategy_of()
            == MapStrategy::Object,
    ensures
        r is Ok,
        inner is None ==> ref_view(r->Ok_0) == Val::Optional(None),
        inner is Some && !has_key(map_leaf_view(m), Val::Str(name@)) ==> ref_view(r->Ok_0)
            == Val::Optional(Some(Box::new(Val::Optional(None)))),
        inner is Some && is_first(map_leaf_view(m), Val::Str(name@), i) && !(map_leaf_view(
            m,
        )[i].1 is Invalid) ==> ref_view(r->Ok_0) == Val::Optional(
            Some(Box::new(map_leaf_view(m)[i].1)),
        ),
{
    lemma_first(map_leaf_view(m), Val::Str(name@), i);
}

/// Nothing is selected optionally from a number, a text, a list, a boolean or null.
pub proof fn nothing_is_selected_from_other_leaves(
    h: &mut CelHeap,
    w: Arc<W_Root>,
    name: &str,
    r: Result<CelRef, ExecutionError>,
)
    requires
        call_ensures(interned_opt_select, (h, &w, name), r),
    ensures
        inside(w) is Int || inside(w) is UInt || inside(w) is Double || inside(w) is Bool || inside(
            w,
        ) is Null || inside(w) is Str || inside(w) is Bytes || inside(w) is List ==> (
        r matches Err(e) && e@ == ErrV::NoSuchOverload),
{
}

/// Whether the entry at `i` is the first one with the key `k`.
pub open spec fn is_first(m: Seq<(Val, Val)>, k: Val, i: int) -> bool {
    &&& 0 <= i < m.len()
    &&& m[i].0 == k
    &&& forall|j: int| 0 <= j < i ==> (#[trigger] m[j]).0 != k
}

proof fn lemma_first(m: Seq<(Val, Val)>, k: Val, i: int)
    ensures
        0 <= position(m, k) < m.len() <==> has_key(m, k),
        is_first(m, k, i) ==> position(m, k) == i,
{
    lemma_position(m, k);
    let p = position(m, k);
    if p >= 0 {
        assert(m[p].0 == k);
    }
    if is_first(m, k, i) {
        assert(0 <= p <= i);
    }
}

/// What an operator on leaves gave is read back; an error that it raised is taken out of
/// the slot and says of the operands what it says on values.
pub proof fn results_on_leaves_are_read_back(
    slot: &mut ErrorSlot,
    out: LeafOut,
    r: Outcome,
    a: Val,
    b: Val,
)
    requires
        call_ensures(interned_binop_result, (slot, out), r),
    ensures
        match out {
            LeafOut::Ref(Some(w)) => {
                &&& reads_as(Some(w), a) ==> r@ == OutV::Done(Ok(a))
                &&& *final(slot) == *old(slot)
            },
            LeafOut::Double(op, x, y) => r@ == OutV::Double(op, x, y),
            LeafOut::Ref(None) => final(slot).raised is None && match old(slot).raised {
                None => true,
                Some(e) => reads_as(e.lhs, a) && reads_as(e.rhs, b) ==> {
                    &&& e.code == CelErrCode::DivisionByZero ==> r@ == OutV::Done(
                        Err(ErrV::DivisionByZero(a)),
                    )
                    &&& e.code == CelErrCode::RemainderByZero ==> r@ == OutV::Done(
                        Err(ErrV::RemainderByZero(a)),
                    )
                    &&& e.code == CelErrCode::Overflow && (a is Int || a is UInt) ==> r@
                        == OutV::Done(Err(ErrV::Overflow(e.op@, a, b)))
                    &&& e.code == CelErrCode::UnsupportedBinaryOperator && (a is Str || a is UInt)
                        ==> r@ == OutV::Done(Err(ErrV::UnsupportedBinaryOperator(e.op@, a, b)))
                    &&& e.code == CelErrCode::UnsupportedBinaryOperator && a is Int ==> r@
                        == OutV::Done(Err(ErrV::NoSuchOverload))
                    &&& e.code == CelErrCode::NoSuchOverload ==> r@ == OutV::Done(
                        Err(ErrV::NoSuchOverload),
                    )
                },
            },
        },
{
}

/// An error that was raised of one operand is told as of that operand and zero.
pub proof fn an_error_of_one_operand_is_read_back(
    slot: &mut ErrorSlot,
    r: Outcome,
    e: CelError,
    i: i64,
)
    requires
        call_ensures(interned_binop_result, (slot, LeafOut::Ref(None)), r),
        old(slot).raised == Some(e),
        e.code == CelErrCode::Overflow,
        e.rhs is None,
        reads_as(e.lhs, Val::Int(i)),
    ensures
        r@ == OutV::Done(Err(ErrV::Overflow(e.op@, Val::Int(i), Val::Int(0)))),
{
}

/// A leaf finds in a map leaf that holds references the value of the first key that it
/// equals.
pub proof fn a_map_leaf_is_searched(
    h: &mut CelHeap,
    w: Arc<W_Root>,
    key: Arc<W_Root>,
    m: W_MapObject,
    r: Option<CelRef>,
    i: int,
)
    requires
        call_ensures(map_lookup, (h, &w, &key), r),
        inside(w) == W_Root::CelMap(m),
        m.strategy_of() == MapStrategy::Object,
    ensures
        r is Some <==> exists|j: int|
            0 <= j < map_leaf_view(m).len() && leaf_eq(
                (#[trigger] map_leaf_view(m)[j]).0,
                root_view(inside(key)),
            ),
        0 <= i < map_leaf_view(m).len() && leaf_eq(map_leaf_view(m)[i].0, root_view(inside(key)))
            && (forall|j: int|
            0 <= j < i ==> !leaf_eq((#[trigger] map_leaf_view(m)[j]).0, root_view(inside(key))))
            ==> r == Some(m.slots_of()[2 * i + 1]),
{
    let entries = map_leaf_view(m);
    let k = root_view(inside(key));
    lemma_leaf_position(entries, k, 0);
    let p = leaf_position(entries, k, 0);
    if p >= 0 {
        assert(leaf_eq(entries[p].0, k));
    }
    if 0 <= i < entries.len() && leaf_eq(entries[i].0, k) && (forall|j: int|
        0 <= j < i ==> !leaf_eq((#[trigger] entries[j]).0, k)) {
        assert(0 <= p <= i);
        assert(leaf_eq(entries[p].0, k));
    }
}

proof fn lemma_leaf_position(m: Seq<(Val, Val)>, k: Val, i: int)
    requires
        0 <= i <= m.len(),
    ensures
        ({
            let p = leaf_position(m, k, i);
            if p >= 0 {
                &&& i <= p < m.len()
                &&& leaf_eq(m[p].0, k)
                &&& forall|j: int| i <= j < p ==> !leaf_eq((#[trigger] m[j]).0, k)
            } else {
                forall|j: int| i <= j < m.len() ==> !leaf_eq((#[trigger] m[j]).0, k)
            }
        }),
    decreases m.len() - i,
{
    if i < m.len() && !leaf_eq(m[i].0, k) {
        lemma_leaf_position(m, k, i + 1);
    }
}

/// The keys of a map leaf, in the order of its entries; what is no map has none.
pub proof fn a_map_leaf_gives_its_keys(
    h: &mut CelHeap,
    w: Arc<W_Root>,
    ks: Vec<CelRef>,
    i: int,
)
    requires
        call_ensures(map_key_refs, (h, &w), ks),
    ensures
        match root_view(inside(w)) {
            Val::CelMap(m) => ks@.len() == m.len() && (0 <= i < m.len() ==> ref_view(ks@[i])
                == m[i].0),
            _ => ks@.len() == 0,
        },
{
    if root_view(inside(w)) is CelMap {
        let refs = crate::runtime::object::refs_view(ks@);
        let m = root_view(inside(w))->CelMap_0;
        assert(refs.len() == ks@.len());
        if 0 <= i < m.len() {
            assert(refs[i] == ref_view(ks@[i]));
        }
    }
}

/// Integer leaves are divided toward zero with the remainder that is left, and not by zero.
pub proof fn leaves_of_a_class_are_divided(
    h1: &mut CelHeap,
    s1: &mut ErrorSlot,
    h2: &mut CelHeap,
    s2: &mut ErrorSlot,
    a: Arc<W_Root>,
    b: Arc<W_Root>,
    q: CelRef,
    m: CelRef,
    x: i64,
    y: i64,
)
    requires
        call_ensures(w_int_div, (h1, s1, &a, &b), q),
        call_ensures(w_int_rem, (h2, s2, &a, &b), m),
        root_view(inside(a)) == Val::Int(x),
        root_view(inside(b)) == Val::Int(y),
    ensures
        y == 0 ==> q is None && m is None,
        y == 0 ==> failed(
            LeafOut::Ref(q),
            *final(s1),
            CelErrCode::DivisionByZero,
            "div"@,
            inside(a),
            inside(b),
        ),
        y == 0 ==> failed(
            LeafOut::Ref(m),
            *final(s2),
            CelErrCode::RemainderByZero,
            "rem"@,
            inside(a),
            inside(b),
        ),
        y != 0 && !(x == i64::MIN && y == -1) ==> exists|k: int| #[trigger]
            is_quotient(x as int, y as int, k) && gave(LeafOut::Ref(q), Val::Int(k as i64)) && gave(
                LeafOut::Ref(m),
                Val::Int((x - k * y) as i64),
            ) && fits_int(k) && fits_int(x - k * y),
{
    if y != 0 && !(x == i64::MIN && y == -1) {
        lemma_quotient(x as int, y as int);
        let k = crate::model::quotient(x as int, y as int);
        if y == 1 {
            assert(k * y == k) by (nonlinear_arith)
                requires
                    y == 1,
            ;
        } else if y == -1 {
            assert(k * y == -k) by (nonlinear_arith)
                requires
                    y == -1,
            ;
        }
        assert(is_quotient(x as int, y as int, k));
    }
}

/// Unsigned leaves are divided down, and not by zero.
pub proof fn unsigned_leaves_of_a_class_are_divided(
    h1: &mut CelHeap,
    s1: &mut ErrorSlot,
    h2: &mut CelHeap,
    s2: &mut ErrorSlot,
    a: Arc<W_Root>,
    b: Arc<W_Root>,
    q: CelRef,
    m: CelRef,
    x: u64,
    y: u64,
)
    requires
        call_ensures(w_uint_div, (h1, s1, &a, &b), q),
        call_ensures(w_uint_rem, (h2, s2, &a, &b), m),
        root_view(inside(a)) == Val::UInt(x),
        root_view(inside(b)) == Val::UInt(y),
    ensures
        y == 0 <==> q is None,
        y == 0 <==> m is None,
        y != 0 ==> exists|k: u64, rest: u64|
            #[trigger] gave(LeafOut::Ref(q), Val::UInt(k)) && #[trigger] gave(
                LeafOut::Ref(m),
                Val::UInt(rest),
            ) && x == k * y + rest && rest < y,
{
    if y != 0 {
        vstd::arithmetic::div_mod::lemma_fundamental_div_mod(x as int, y as int);
        let k = (x as int / y as int) as u64;
        let rest = (x as int % y as int) as u64;
        assert(0 <= x as int / y as int <= x as int) by (nonlinear_arith)
            requires
                y > 0,
                x >= 0,
        ;
        assert(y * k == k * y) by (nonlinear_arith);
        assert(gave(LeafOut::Ref(q), Val::UInt(k)));
        assert(gave(LeafOut::Ref(m), Val::UInt(rest)));
    }
}

/// The time from one timestamp leaf to another, where its nanoseconds fit.
pub proof fn timestamp_leaves_are_subtracted(
    h: &mut CelHeap,
    s: &mut ErrorSlot,
    a: Arc<W_Root>,
    b: Arc<W_Root>,
    r: CelRef,
)
    requires
        call_ensures(w_timestamp_diff, (h, s, &a, &b), r),
    ensures
        match (root_view(inside(a)), root_view(inside(b))) {
            (Val::Timestamp(t), Val::Timestamp(u)) => if fits_int(t.nanos - u.nanos) {
                gave(LeafOut::Ref(r), Val::Duration(t.nanos - u.nanos))
            } else {
                r is None
            },
            _ => true,
        },
{
}

/// List leaves that hold references are put together, the left one first.
pub proof fn list_leaves_are_put_together(
    h: &mut CelHeap,
    x: W_ListObject,
    y: W_ListObject,
    r: CelRef,
)
    requires
        call_ensures(w_list_add, (h, &x, &y), r),
        x.strategy_of() != ListStrategy::Window,
        y.strategy_of() != ListStrategy::Window,
    ensures
        ref_view(r) == Val::List(list_leaf_view(x) + list_leaf_view(y)),
{
}

/// A list behind a leaf has the window of the host list that it was made over, and a
/// record behind a leaf has the entries of the host map.
pub proof fn hosts_are_seen_through_leaves(
    h1: &mut CelHeap,
    h2: &mut CelHeap,
    h3: &mut CelHeap,
    l: ListRef,
    idx: HostIndex,
    w_type: CelRef,
    storage: CelRef,
    start: usize,
    len: usize,
    r: CelRef,
    g1: &mut CelHeap,
    g2: &mut CelHeap,
    g3: &mut CelHeap,
    m: CelMap,
    jdx: HostIndex,
    shelf: CelRef,
    n: usize,
    q: CelRef,
)
    requires
        call_ensures(CelHeap::push_host, (h1, Host::List(l)), idx),
        *old(h2) == *final(h1),
        call_ensures(new_opaque, (h2, w_type, idx), storage),
        start + len <= l@.len(),
        call_ensures(new_list_window, (h3, storage, start, len), r),
        call_ensures(CelHeap::push_host, (g1, Host::CelMap(m)), jdx),
        *old(g2) == *final(g1),
        call_ensures(new_opaque, (g2, w_type, jdx), shelf),
        call_ensures(new_map_record, (g3, shelf, n), q),
    ensures
        ref_view(r) == Val::List(l@.subrange(start as int, start + len)),
        ref_view(q) == Val::CelMap(m@),
        reads_as(q, Val::CelMap(m@)),
{
}

/// Numbers that are made in place are read back, and a reference is copied to the very
/// object that it refers to.
pub proof fn numbers_are_made_in_place(
    h1: &mut CelHeap,
    h2: &mut CelHeap,
    h3: &mut CelHeap,
    h4: &mut CelHeap,
    i: i64,
    u: u64,
    d: u64,
    x: CelRef,
    raw: CelRef,
    y: CelRef,
    z: CelRef,
    copy: CelRef,
)
    requires
        call_ensures(new_int_in, (h1, i), x),
        call_ensures(new_int_raw, (h2, i), raw),
        call_ensures(new_uint_in, (h3, u), y),
        call_ensures(new_double_in, (h4, d), z),
        call_ensures(clone_ref, (&x,), copy),
    ensures
        reads_as(x, Val::Int(i)),
        reads_as(raw, Val::Int(i)),
        reads_as(y, Val::UInt(u)),
        reads_as(z, Val::Double(d)),
        copy == x,
        -5 <= i <= 256 ==> *final(h1) == *old(h1),
{
}

} // verus!
