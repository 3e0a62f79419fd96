//! Operations of the language on leaves, where a container is read in place.

use crate::access::{key_display, value_key};
use crate::error::{ExecutionError, ResolveResult};
use crate::key::{AsKeyRef, Key, KeyRef};
use crate::map::lemma_position;
use crate::model::{
    binary, index, is_key, iterated, key_text, kind_name, leaf_eq, lookup, negate, other_integer,
    position, val_type, BinOp, ErrV, OutV, ReadError, Val, ValueType,
};
use crate::ops::{binary_values_ref, value_negate, Outcome};
use crate::runtime::binop::{
    exact_position, has_leaf_element, list_contains, list_contains_value, map_has_key, values_equal,
    LeafOut,
};
use crate::runtime::convert::{
    hosted_row, hosted_window, intern_leaf, interned_at, interned_of, ref_to_value, LeafError,
};
use crate::runtime::error::{take_error, CelErrCode, CelError, ErrorSlot};
use crate::runtime::heap::{CelHeap, Space};
use crate::runtime::object::{
    list_get, list_leaf_view, list_len, made, map_leaf_view, map_lookup_string, new_optional,
    new_optional_none, read_or_null, read_ref, read_root, ref_view, root_view, struct_lookup_field,
    CelRef, ListStrategy, MapStrategy, W_ListObject, W_MapObject, W_Root,
};
use crate::text::str_eq;
use crate::value::{held, value_view, Value};
use std::sync::Arc;
use vstd::prelude::*;

verus! {

/// A value, and the leaf that it is held as, if it is held as one.
pub struct HeldV {
    pub val: Val,
    pub leaf: Option<W_Root>,
}

/// A value in public form.
pub open spec fn in_public(v: Val) -> HeldV {
    HeldV { val: v, leaf: None }
}

/// A value as it is held.
pub open spec fn held_view(v: Value) -> HeldV {
    HeldV { val: value_view(v), leaf: held(v) }
}

/// Values as they are held.
pub open spec fn held_views(items: Seq<Value>) -> Seq<HeldV> {
    Seq::new(items.len(), |i: int| held_view(items[i]))
}

/// A result as it is held.
pub open spec fn held_result(r: ResolveResult) -> Result<HeldV, ErrV> {
    match r {
        Ok(v) => Ok(held_view(v)),
        Err(e) => Err(e@),
    }
}

/// What a reference in a leaf refers to, held as it stands there.
pub open(crate) spec fn in_slot(r: CelRef) -> HeldV {
    match r {
        Some(w) => HeldV { val: read_or_null(read_root(*w)), leaf: Some(*w) },
        None => in_public(Val::Null),
    }
}

/// Whether a leaf is indexed by `k` in place: it is a list that holds references, or a
/// map that does and `k` can be a key.
pub open(crate) spec fn is_read_in_place(w: W_Root, k: Val) -> bool {
    match w {
        W_Root::List(l) => l.strategy == ListStrategy::Object,
        W_Root::CelMap(m) => m.strategy == MapStrategy::Object && is_key(k),
        _ => false,
    }
}

/// Where a key is found: where it stands itself, else where the same number stands as
/// the other integer type.
pub open spec fn position_numeric(m: Seq<(Val, Val)>, k: Val) -> int {
    if position(m, k) >= 0 {
        position(m, k)
    } else {
        match other_integer(k) {
            Some(o) => position(m, o),
            None => -1,
        }
    }
}

/// `w[k]`, read in place.
pub open(crate) spec fn item_in_place(w: W_Root, k: Val) -> Result<HeldV, ErrV> {
    match w {
        W_Root::List(l) => match k {
            Val::Int(i) => if 0 <= i < l.length {
                Ok(in_slot(l.items.slots@[i as int]))
            } else {
                Err(ErrV::IndexOutOfBounds(k))
            },
            Val::UInt(u) => if u < l.length {
                Ok(in_slot(l.items.slots@[u as int]))
            } else {
                Err(ErrV::IndexOutOfBounds(k))
            },
            _ => Err(ErrV::UnexpectedType(kind_name(val_type(k)), "int|uint"@)),
        },
        W_Root::CelMap(m) => {
            let p = position_numeric(map_leaf_view(m), k);
            if p >= 0 {
                Ok(in_slot(m.items.slots@[2 * p + 1]))
            } else {
                Err(ErrV::NoSuchKey(key_text(k)))
            }
        },
        _ => Err(ErrV::NoSuchOverload),
    }
}

/// `c[k]`, given the leaf that the container is held as, if it is held as one. What a
/// leaf refers to stays the leaf that it is; any other element is in public form.
#[verifier::opaque]
pub open(crate) spec fn held_index(c: Val, leaf: Option<W_Root>, k: Val) -> Result<HeldV, ErrV> {
    match leaf {
        Some(w) if is_read_in_place(w, k) => item_in_place(w, k),
        _ => match index(c, k) {
            Ok(v) => Ok(in_public(v)),
            Err(e) => Err(e),
        },
    }
}

/// What a comprehension iterates over, given the leaf that it is held as, if it is held
/// as one: the elements of a list, the keys of a map.
pub open(crate) spec fn held_items(c: Val, leaf: Option<W_Root>) -> Result<Seq<HeldV>, ErrV> {
    match leaf {
        Some(W_Root::List(l)) if l.strategy == ListStrategy::Object => Ok(
            Seq::new(l.length as nat, |i: int| in_slot(l.items.slots@[i])),
        ),
        Some(W_Root::CelMap(m)) if m.strategy == MapStrategy::Object => Ok(
            Seq::new(m.length as nat, |i: int| in_slot(m.items.slots@[2 * i])),
        ),
        _ => match iterated(c) {
            Ok(items) => Ok(Seq::new(items.len(), |i: int| in_public(items[i]))),
            Err(e) => Err(e),
        },
    }
}

/// The value that a reference refers to, held as it stands in its leaf.
fn slot_value(x: &CelRef) -> (r: Value)
    ensures
        held_view(r) == in_slot(*x),
{
    match x {
        Some(w) => Value::Interned(w.clone()),
        None => Value::Null,
    }
}

/// An element of a list leaf that holds references.
fn list_slot(l: &W_ListObject, key: &Value) -> (r: ResolveResult)
    requires
        l.strategy == ListStrategy::Object,
    ensures
        held_result(r) == item_in_place(W_Root::List(*l), key@),
{
    proof {
        use_type_invariant(l);
    }
    let key = key.unpack();
    match &key {
        Value::Int(i) => if *i >= 0 && (*i as u64) < l.length as u64 {
            Ok(slot_value(&l.items.slots[*i as usize]))
        } else {
            Err(ExecutionError::IndexOutOfBounds(key.clone()))
        },
        Value::UInt(u) => if *u < l.length as u64 {
            Ok(slot_value(&l.items.slots[*u as usize]))
        } else {
            Err(ExecutionError::IndexOutOfBounds(key.clone()))
        },
        other => Err(
            ExecutionError::UnexpectedType {
                got: other.type_of().name().to_owned(),
                want: "int|uint".to_owned(),
            },
        ),
    }
}

/// The place in a map leaf that a key finds: its own, else that of the same number as
/// the other integer type.
fn numeric_place(w: &Arc<W_Root>, key: &Key) -> (r: Option<usize>)
    requires
        **w is CelMap,
    ensures
        ({
            let m = map_leaf_view((**w)->CelMap_0);
            match r {
                Some(i) => i < m.len() && position_numeric(m, key@) == i,
                None => position_numeric(m, key@) < 0,
            }
        }),
{
    match exact_position(w, key.as_keyref()) {
        Some(i) => Some(i),
        None => match key {
            Key::Int(i) => if *i >= 0 {
                exact_position(w, KeyRef::Uint(*i as u64))
            } else {
                None
            },
            Key::Uint(u) => if *u <= i64::MAX as u64 {
                exact_position(w, KeyRef::Int(*u as i64))
            } else {
                None
            },
            _ => None,
        },
    }
}

/// `w[key]` where the leaf is indexed in place, and `None` where it is not.
pub(crate) fn leaf_item(w: &Arc<W_Root>, key: &Value) -> (r: Option<ResolveResult>)
    ensures
        match r {
            Some(x) => is_read_in_place(**w, key@) && held_result(x) == item_in_place(**w, key@),
            None => !is_read_in_place(**w, key@),
        },
{
    match &**w {
        W_Root::List(l) => match l.strategy() {
            ListStrategy::Object => Some(list_slot(l, key)),
            _ => None,
        },
        W_Root::CelMap(m) => match m.strategy() {
            MapStrategy::Object => match value_key(key.clone()) {
                Err(_) => None,
                Ok(k) => {
                    proof {
                        use_type_invariant(m);
                    }
                    let total: usize = m.items.slots.len();
                    assert(2 * m.length <= total);
                    Some(
                        match numeric_place(w, &k) {
                            Some(i) => Ok(slot_value(&m.items.slots[2 * i + 1])),
                            None => Err(ExecutionError::NoSuchKey(Arc::new(key_display(&k)))),
                        },
                    )
                },
            },
            _ => None,
        },
        _ => None,
    }
}

/// `w.name` where the leaf is indexed in place, and `None` where it is not.
pub(crate) fn leaf_field(w: &Arc<W_Root>, name: &str) -> (r: Option<ResolveResult>)
    ensures
        match r {
            Some(x) => is_read_in_place(**w, Val::Str(name@)) && held_result(x) == item_in_place(
                **w,
                Val::Str(name@),
            ),
            None => !is_read_in_place(**w, Val::Str(name@)),
        },
{
    match &**w {
        W_Root::List(l) => match l.strategy() {
            ListStrategy::Object => Some(
                Err(
                    ExecutionError::UnexpectedType {
                        got: ValueType::String.name().to_owned(),
                        want: "int|uint".to_owned(),
                    },
                ),
            ),
            _ => None,
        },
        W_Root::CelMap(m) => match m.strategy() {
            MapStrategy::Object => {
                proof {
                    lemma_position(map_leaf_view(*m), Val::Str(name@));
                }
                Some(
                    match map_lookup_string(m, name) {
                        Some(x) => Ok(slot_value(&x)),
                        None => Err(ExecutionError::NoSuchKey(Arc::new(name.to_owned()))),
                    },
                )
            },
            _ => None,
        },
        _ => None,
    }
}

/// What a comprehension iterates over where a leaf is read in place, and `None` where
/// it is not.
pub(crate) fn leaf_items(w: &Arc<W_Root>) -> (r: Option<Vec<Value>>)
    ensures
        match r {
            Some(items) => forall|c: Val|
                #[trigger] held_items(c, Some(**w)) == Ok::<Seq<HeldV>, ErrV>(held_views(items@)),
            None => match **w {
                W_Root::List(l) => l.strategy != ListStrategy::Object,
                W_Root::CelMap(m) => m.strategy != MapStrategy::Object,
                _ => true,
            },
        },
{
    match &**w {
        W_Root::List(l) => match l.strategy() {
            ListStrategy::Object => {
                proof {
                    use_type_invariant(l);
                }
                let items = stepped_slots(&l.items.slots, 1, l.length);
                assert(held_views(items@) =~= Seq::new(
                    l.length as nat,
                    |i: int| in_slot(l.items.slots@[i]),
                ));
                Some(items)
            },
            _ => None,
        },
        W_Root::CelMap(m) => match m.strategy() {
            MapStrategy::Object => {
                proof {
                    use_type_invariant(m);
                }
                let items = stepped_slots(&m.items.slots, 2, m.length);
                assert(held_views(items@) =~= Seq::new(
                    m.length as nat,
                    |i: int| in_slot(m.items.slots@[2 * i]),
                ));
                Some(items)
            },
            _ => None,
        },
        _ => None,
    }
}

/// What every `step`-th of `n` references refers to, from the first on.
fn stepped_slots(slots: &Vec<CelRef>, step: usize, n: usize) -> (r: Vec<Value>)
    requires
        step == 1 || step == 2,
        n * step <= slots@.len(),
    ensures
        r@.len() == n,
        forall|i: int| 0 <= i < n ==> held_view(#[trigger] r@[i]) == in_slot(slots@[i * step]),
{
    let total: usize = slots.len();
    let mut out: Vec<Value> = Vec::new();
    let mut i: usize = 0;
    while i < n
        invariant
            i <= n,
            step == 1 || step == 2,
            n * step <= total,
            total == slots@.len(),
            out@.len() == i,
            forall|j: int|
                0 <= j < i ==> held_view(#[trigger] out@[j]) == in_slot(slots@[j * step]),
        decreases n - i,
    {
        assert(i * step < n * step) by (nonlinear_arith)
            requires
                i < n,
                step == 1 || step == 2,
        ;
        out.push(slot_value(&slots[i * step]));
        i = i + 1;
    }
    out
}

/// Element `index` of a list leaf. The element of a window is boxed, if it has a
/// leaf.
pub fn interned_list_get(heap: &mut CelHeap, l: &W_ListObject, index: i64) -> (r: Option<CelRef>)
    requires
        old(heap).wf(),
    ensures
        final(heap).grown_from(old(heap)),
        match r {
            Some(x) => 0 <= index < l.len_of() && match l.strategy_of() {
                ListStrategy::Object => x == l.slots_of()[index as int] && *final(heap) == *old(
                    heap,
                ) && ref_view(x) == list_leaf_view(*l)[index as int],
                ListStrategy::Ints => ref_view(x) == list_leaf_view(*l)[index as int] && (
                x matches Some(w) && made(old(heap), final(heap), *w)),
                ListStrategy::Window => exists|e: Value|
                    #[trigger] e@ == list_leaf_view(*l)[index as int] && interned_of(
                        e,
                        old(heap).copied_from(),
                    ) == Ok::<Val, LeafError>(ref_view(x)) && interned_at(
                        old(heap),
                        final(heap),
                        e,
                        x,
                    ),
            },
            None => index < 0 || index >= l.len_of() || (l.strategy_of() == ListStrategy::Window
                && exists|e: Value|
                #[trigger] e@ == list_leaf_view(*l)[index as int] && interned_of(
                    e,
                    old(heap).copied_from(),
                ) is Err),
        },
{
    match l.strategy() {
        ListStrategy::Window => {
            let n: usize = list_len(l);
            if index < 0 || index as u64 >= n as u64 {
                return None;
            }
            let list = hosted_window(l);
            match list.get(index as usize) {
                Some(v) => {
                    assert(v@ == list_leaf_view(*l)[index as int]);
                    intern_leaf(heap, &v)
                },
                None => None,
            }
        },
        _ => list_get(heap, l, index),
    }
}

/// The value of a string key in a map leaf. The value of a record row is boxed.
pub fn interned_map_lookup_string(heap: &mut CelHeap, m: &W_MapObject, name: &str) -> (r: Option<
    CelRef,
>)
    requires
        old(heap).wf(),
    ensures
        final(heap).grown_from(old(heap)),
        match m.strategy_of() {
            MapStrategy::Object => *final(heap) == *old(heap) && match r {
                Some(x) => {
                    let p = position(map_leaf_view(*m), Val::Str(name@));
                    &&& 0 <= p < m.len_of()
                    &&& x == m.slots_of()[2 * p + 1]
                    &&& lookup(map_leaf_view(*m), Val::Str(name@)) == Some(ref_view(x))
                },
                None => lookup(map_leaf_view(*m), Val::Str(name@)) is None,
            },
            MapStrategy::Record => match lookup(map_leaf_view(*m), Val::Str(name@)) {
                Some(v) => exists|e: Value|
                    #[trigger] e@ == v && match r {
                        Some(x) => interned_of(e, old(heap).copied_from()) == Ok::<Val, LeafError>(
                            ref_view(x),
                        ) && interned_at(old(heap), final(heap), e, x),
                        None => interned_of(e, old(heap).copied_from()) is Err,
                    },
                None => r is None,
            },
        },
{
    match m.strategy() {
        MapStrategy::Object => map_lookup_string(m, name),
        MapStrategy::Record => {
            let row = hosted_row(m);
            assert(map_leaf_view(*m) == row@);
            match row.get_exact(KeyRef::String(name)) {
                Some(v) => {
                    assert(lookup(row@, Val::Str(name@)) == Some(v@));
                    intern_leaf(heap, &v)
                },
                None => None,
            }
        },
    }
}

/// Equality of two list leaves of which one holds unboxed integers, and `None` for
/// any other pair.
pub fn interned_list_eq(a: &Arc<W_Root>, b: &Arc<W_Root>) -> (r: Option<bool>)
    ensures
        match r {
            Some(eq) => eq == leaf_eq(root_view(**a), root_view(**b)) && root_view(**a) is List
                && root_view(**b) is List,
            None => !(holds_ints(**a) && root_view(**b) is List) && !(holds_ints(**b) && root_view(
                **a,
            ) is List),
        },
{
    let a_list = match &**a {
        W_Root::List(l) => Some(l.strategy()),
        _ => None,
    };
    let b_list = match &**b {
        W_Root::List(l) => Some(l.strategy()),
        _ => None,
    };
    match (a_list, b_list) {
        (Some(ListStrategy::Ints), Some(_)) | (Some(_), Some(ListStrategy::Ints)) => Some(
            values_equal(a, b),
        ),
        _ => None,
    }
}

/// Whether a leaf is a list that holds unboxed integers.
pub open(crate) spec fn holds_ints(w: W_Root) -> bool {
    w matches W_Root::List(l) && l.strategy == ListStrategy::Ints
}

/// `needle in container` on a leaf, given the needle's value and what it is to the
/// runtime. A list of unboxed integers holds integers only, and a map its exact keys. A
/// needle that cannot be a map key is an error, not a miss.
pub open spec fn leaf_contains(container: W_Root, value: Val, needle: Val) -> Result<
    bool,
    ErrV,
> {
    match root_view(container) {
        Val::List(items) => Ok(
            if holds_ints(container) {
                needle is Int && items.contains(needle)
            } else {
                has_leaf_element(items, needle)
            },
        ),
        Val::CelMap(m) => if is_key(value) {
            Ok(lookup(m, value) is Some)
        } else {
            Err(ErrV::UnsupportedKeyType(value))
        },
        _ => Err(ErrV::NoSuchOverload),
    }
}

/// What a value is to the runtime: what its leaf holds, if it is held as one.
pub open spec fn leaf_or_value(v: Val, leaf: Option<W_Root>) -> Val {
    match leaf {
        Some(w) => root_view(w),
        None => v,
    }
}

/// In a list of unboxed integers, an integer is equal to an element exactly when it is
/// one.
proof fn lemma_ints_contain(w: &W_Root, needle: &Value)
    requires
        holds_ints(*w),
        leaf_or_value(needle@, held(*needle)) is Int,
    ensures
        ({
            let k = leaf_or_value(needle@, held(*needle));
            has_leaf_element(root_view(*w)->List_0, k) == root_view(*w)->List_0.contains(k)
        }),
{
    let k = leaf_or_value(needle@, held(*needle));
    let items = root_view(*w)->List_0;
    assert(root_view(*w) == Val::List(list_leaf_view(w->List_0)));
    assert(forall|i: int| 0 <= i < items.len() ==> (#[trigger] items[i]) is Int);
    if has_leaf_element(items, k) {
        let i = choose|i: int| 0 <= i < items.len() && leaf_eq(#[trigger] items[i], k);
        assert(items[i] == k);
    }
    if items.contains(k) {
        let i = choose|i: int| 0 <= i < items.len() && items[i] == k;
        assert(leaf_eq(items[i], k));
    }
}

/// Whether a list of unboxed integers holds a value.
fn ints_contain(container: &Arc<W_Root>, needle: &Value) -> (r: bool)
    requires
        holds_ints(**container),
    ensures
        ({
            let k = leaf_or_value(needle@, held(*needle));
            r == (k is Int && root_view(**container)->List_0.contains(k))
        }),
{
    let is_int = match needle {
        Value::Interned(n) => match &**n {
            W_Root::Int(_) => true,
            _ => false,
        },
        Value::Int(_) => true,
        _ => false,
    };
    if !is_int {
        return false;
    }
    let found = match needle {
        Value::Interned(n) => list_contains(container, n),
        other => list_contains_value(container, other),
    };
    proof {
        lemma_ints_contain(&**container, needle);
    }
    found
}

/// `needle in container`, on a container that is a leaf.
pub(crate) fn leaf_has(container: &Arc<W_Root>, needle: &Value) -> (r: Result<
    bool,
    ExecutionError,
>)
    ensures
        match r {
            Ok(b) => leaf_contains(
                **container,
                needle@,
                leaf_or_value(needle@, held(*needle)),
            ) == Ok::<bool, ErrV>(b),
            Err(e) => leaf_contains(
                **container,
                needle@,
                leaf_or_value(needle@, held(*needle)),
            ) == Err::<bool, ErrV>(e@),
        },
{
    match &**container {
        W_Root::List(l) => match l.strategy() {
            ListStrategy::Ints => Ok(ints_contain(container, needle)),
            _ => Ok(
                match needle {
                    Value::Interned(n) => list_contains(container, n),
                    other => list_contains_value(container, other),
                },
            ),
        },
        W_Root::CelMap(_) => match value_key(needle.clone()) {
            Ok(k) => Ok(map_has_key(container, k.as_keyref())),
            Err(e) => Err(e),
        },
        _ => Err(ExecutionError::NoSuchOverload),
    }
}

/// `needle in container` on leaves. A container that holds nothing has no overload.
pub fn interned_contains(container: &Arc<W_Root>, needle: &Arc<W_Root>) -> (r: Result<
    bool,
    ExecutionError,
>)
    ensures
        ({
            let value = read_or_null(read_root(**needle));
            let want = leaf_contains(**container, value, root_view(**needle));
            match r {
                Ok(b) => want == Ok::<bool, ErrV>(b),
                Err(e) => want == Err::<bool, ErrV>(e@),
            }
        }),
{
    leaf_has(container, &Value::Interned(needle.clone()))
}

/// `w?.name` on a leaf. A field that is missing is `NoSuchKey`; behind an optional
/// it is an empty optional inside one. What has no fields has no overload.
pub fn interned_opt_select(heap: &mut CelHeap, w: &Arc<W_Root>, name: &str) -> (r: Result<
    CelRef,
    ExecutionError,
>)
    requires
        old(heap).wf(),
    ensures
        final(heap).grown_from(old(heap)),
        match **w {
            W_Root::Optional(o) => match o.w_value {
                None => r matches Ok(x) && ref_view(x) == Val::Optional(None),
                Some(inner) => selected(*inner, name@, true, old(heap).copied_from(), r),
            },
            _ => selected(**w, name@, false, old(heap).copied_from(), r),
        },
{
    match &**w {
        W_Root::Optional(o) => match &o.w_value {
            None => Ok(new_optional_none(heap)),
            Some(inner) => select_field(heap, inner, name, true),
        },
        _ => select_field(heap, w, name, false),
    }
}

/// What the optional selection of a field gives.
pub open(crate) spec fn selected(
    w: W_Root,
    name: Seq<char>,
    optional: bool,
    nursery: Option<Space>,
    r: Result<CelRef, ExecutionError>,
) -> bool {
    match w {
        W_Root::CelMap(m) => if m.strategy == MapStrategy::Record {
            match lookup(map_leaf_view(m), Val::Str(name)) {
                Some(v) => exists|e: Value|
                    #[trigger] e@ == v && found_or_missing(
                        leaf_value(e, nursery),
                        name,
                        optional,
                        r,
                    ),
                None => found_or_missing(None, name, optional, r),
            }
        } else {
            found_or_missing(lookup(map_leaf_view(m), Val::Str(name)), name, optional, r)
        },
        W_Root::Struct(s) => found_or_missing(
            lookup(root_view(w)->Struct_1, Val::Str(name)),
            name,
            optional,
            r,
        ),
        _ => r matches Err(e) && e@ == ErrV::NoSuchOverload,
    }
}

/// What the leaf of a value is, if it has one.
pub open(crate) spec fn leaf_value(v: Value, nursery: Option<Space>) -> Option<Val> {
    match interned_of(v, nursery) {
        Ok(x) => Some(x),
        Err(_) => None,
    }
}

/// What selecting a field that was looked for gives. A reference to nothing is an
/// empty optional.
pub open(crate) spec fn found_or_missing(
    found: Option<Val>,
    name: Seq<char>,
    optional: bool,
    r: Result<CelRef, ExecutionError>,
) -> bool {
    match found {
        Some(v) => r matches Ok(x) && ref_view(x) == if v == Val::Invalid(ReadError::NullPointer) {
            Val::Optional(None)
        } else {
            Val::Optional(Some(Box::new(v)))
        },
        None => if optional {
            r matches Ok(x) && ref_view(x) == Val::Optional(
                Some(Box::new(Val::Optional(None))),
            )
        } else {
            r matches Err(e) && e@ == ErrV::NoSuchKey(name)
        },
    }
}

/// The optional selection of a field.
fn select_field(heap: &mut CelHeap, w: &Arc<W_Root>, name: &str, optional: bool) -> (r: Result<
    CelRef,
    ExecutionError,
>)
    requires
        old(heap).wf(),
    ensures
        final(heap).grown_from(old(heap)),
        selected(**w, name@, optional, old(heap).copied_from(), r),
{
    let found = match &**w {
        W_Root::CelMap(m) => {
            assert(root_view(**w) == Val::CelMap(map_leaf_view(*m)));
            interned_map_lookup_string(heap, m, name)
        },
        W_Root::Struct(s) => struct_lookup_field(s, name),
        _ => {
            return Err(ExecutionError::NoSuchOverload);
        },
    };
    match found {
        Some(Some(item)) => Ok(new_optional(heap, item)),
        Some(None) => Ok(new_optional_none(heap)),
        None => if optional {
            match new_optional_none(heap) {
                Some(empty) => Ok(new_optional(heap, empty)),
                None => Ok(None),
            }
        } else {
            Err(ExecutionError::NoSuchKey(Arc::new(name.to_owned())))
        },
    }
}

// ---------------------------------------------------------------------------
// From a raised error to the error of an expression.

/// The operator of a name.
pub open spec fn op_named(name: Seq<char>) -> Option<BinOp> {
    if name == "add"@ {
        Some(BinOp::Add)
    } else if name == "sub"@ {
        Some(BinOp::Sub)
    } else if name == "mul"@ {
        Some(BinOp::Mul)
    } else if name == "div"@ {
        Some(BinOp::Div)
    } else if name == "rem"@ {
        Some(BinOp::Rem)
    } else {
        None
    }
}

fn binop_named(name: &str) -> (r: Option<BinOp>)
    ensures
        r == op_named(name@),
{
    if str_eq(name, "add") {
        Some(BinOp::Add)
    } else if str_eq(name, "sub") {
        Some(BinOp::Sub)
    } else if str_eq(name, "mul") {
        Some(BinOp::Mul)
    } else if str_eq(name, "div") {
        Some(BinOp::Div)
    } else if str_eq(name, "rem") {
        Some(BinOp::Rem)
    } else {
        None
    }
}

/// Whether the receiver answers an operand that it cannot take with
/// `NoSuchOverload`, for an operator given by name.
pub open spec fn named_mismatch(op: Seq<char>, l: Val) -> bool {
    ||| l is Int
    ||| l is List && op == "add"@
    ||| l is Duration && op == "sub"@
}

/// The error that a raised one stands for.
pub open spec fn raised_error(code: CelErrCode, op: Seq<char>, lhs: Val, rhs: Val) -> ErrV {
    match code {
        CelErrCode::Overflow => ErrV::Overflow(op, lhs, rhs),
        CelErrCode::DivisionByZero => ErrV::DivisionByZero(lhs),
        CelErrCode::RemainderByZero => ErrV::RemainderByZero(lhs),
        CelErrCode::UnsupportedBinaryOperator => if named_mismatch(op, lhs) {
            ErrV::NoSuchOverload
        } else {
            ErrV::UnsupportedBinaryOperator(op, lhs, rhs)
        },
        CelErrCode::NoSuchOverload => ErrV::NoSuchOverload,
        CelErrCode::NoneDereference => ErrV::FunctionError(op, "optional.none() dereference"@),
    }
}

/// The error that a raised one stands for.
pub fn raised_to_execution(code: CelErrCode, op: &'static str, lhs: Value, rhs: Value) -> (r:
    ExecutionError)
    ensures
        r@ == raised_error(code, op@, lhs@, rhs@),
{
    match code {
        CelErrCode::Overflow => ExecutionError::Overflow(op, lhs, rhs),
        CelErrCode::DivisionByZero => ExecutionError::DivisionByZero(lhs),
        CelErrCode::RemainderByZero => ExecutionError::RemainderByZero(lhs),
        CelErrCode::UnsupportedBinaryOperator => {
            let no_such = match lhs.unpack() {
                Value::Int(_) => true,
                Value::List(_) => str_eq(op, "add"),
                Value::Duration(_) => str_eq(op, "sub"),
                _ => false,
            };
            if no_such {
                ExecutionError::NoSuchOverload
            } else {
                ExecutionError::UnsupportedBinaryOperator(op, lhs, rhs)
            }
        },
        CelErrCode::NoSuchOverload => ExecutionError::NoSuchOverload,
        CelErrCode::NoneDereference => ExecutionError::function_error(
            op,
            "optional.none() dereference",
        ),
    }
}

/// Whether the two are a duration or a timestamp each.
pub open spec fn both_temporal(l: Val, r: Val) -> bool {
    (l is Duration || l is Timestamp) && (r is Duration || r is Timestamp)
}

/// What arithmetic that overflowed 64 bits of nanoseconds comes to on public values,
/// if it is on durations and timestamps.
pub open spec fn temporal_out(op: Seq<char>, l: Val, r: Val) -> Option<OutV> {
    if op == "negate"@ && l is Duration {
        Some(OutV::Done(negate(l)))
    } else if both_temporal(l, r) {
        match op_named(op) {
            Some(b) => Some(binary(b, l, r)),
            None => None,
        }
    } else {
        None
    }
}

/// What arithmetic that overflowed 64 bits of nanoseconds comes to on public values,
/// if it is on durations and timestamps.
fn temporal_public_arith(op: &'static str, lhs: &Value, rhs: &Value) -> (r: Option<Outcome>)
    ensures
        match r {
            Some(out) => temporal_out(op@, lhs@, rhs@) == Some(out@),
            None => temporal_out(op@, lhs@, rhs@) is None,
        },
{
    let l_temporal = match lhs.unpack() {
        Value::Duration(_) => true,
        Value::Timestamp(_) => true,
        _ => false,
    };
    let l_duration = match lhs.unpack() {
        Value::Duration(_) => true,
        _ => false,
    };
    let r_temporal = match rhs.unpack() {
        Value::Duration(_) => true,
        Value::Timestamp(_) => true,
        _ => false,
    };
    if str_eq(op, "negate") && l_duration {
        return Some(Outcome::Done(value_negate(lhs.clone())));
    }
    if l_temporal && r_temporal {
        return match binop_named(op) {
            Some(b) => Some(binary_values_ref(b, lhs, rhs)),
            None => None,
        };
    }
    None
}

/// The operands of a raised error, as public values. A missing right side is 0.
pub open(crate) spec fn raised_operands(e: CelError) -> (Val, Val) {
    (
        read_or_null(read_ref(e.lhs)),
        match e.rhs {
            None => Val::Int(0),
            Some(_) => read_or_null(read_ref(e.rhs)),
        },
    )
}

/// What a raised error comes to.
pub open(crate) spec fn arith_error(raised: Option<CelError>) -> OutV {
    match raised {
        None => OutV::Done(Err(ErrV::InternalError("raised without an error"@))),
        Some(e) => {
            let (l, r) = raised_operands(e);
            let plain = OutV::Done(Err(raised_error(e.code, e.op@, l, r)));
            if e.code == CelErrCode::Overflow {
                match temporal_out(e.op@, l, r) {
                    Some(out) => out,
                    None => plain,
                }
            } else {
                plain
            }
        },
    }
}

fn value_or_null(r: &CelRef) -> (v: Value)
    ensures
        v@ == read_or_null(read_ref(*r)),
{
    match ref_to_value(r) {
        Ok(v) => v,
        Err(_) => Value::Null,
    }
}

/// The outcome of an arithmetic operator on leaves, as the outcome of an expression.
/// The error in flight is taken.
pub fn interned_binop_result(slot: &mut ErrorSlot, out: LeafOut) -> (r: Outcome)
    ensures
        match out {
            LeafOut::Ref(Some(w)) => r@ == OutV::Done(
                Ok(read_or_null(read_root(*w))),
            ) && *final(slot) == *old(slot),
            LeafOut::Double(op, x, y) => r@ == OutV::Double(op, x, y) && *final(slot) == *old(slot),
            LeafOut::Ref(None) => {
                &&& r@ == arith_error(old(slot).raised)
                &&& final(slot).raised is None
            },
        },
{
    match out {
        LeafOut::Ref(Some(w)) => Outcome::Done(Ok(Value::Interned(w))),
        LeafOut::Double(op, x, y) => Outcome::Double(op, x, y),
        LeafOut::Ref(None) => match take_error(slot) {
            None => Outcome::Done(
                Err(ExecutionError::InternalError("raised without an error".to_owned())),
            ),
            Some(e) => {
                let lhs = value_or_null(&e.lhs);
                let rhs = match &e.rhs {
                    None => Value::Int(0),
                    Some(_) => value_or_null(&e.rhs),
                };
                if e.code == CelErrCode::Overflow {
                    if let Some(out) = temporal_public_arith(e.op, &lhs, &rhs) {
                        return out;
                    }
                }
                Outcome::Done(Err(raised_to_execution(e.code, e.op, lhs, rhs)))
            },
        },
    }
}

} // verus!
