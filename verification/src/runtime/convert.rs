//! The boundary between public values and leaves.

use crate::key::{key_is_key, AsKeyRef, Key};
use crate::list::{all_ints, ints_view, list_view, storage_view, values_view, ListRef, ListStorage};
use crate::map::{
    lemma_insert_all_distinct, lemma_insert_keeps_distinct, lemma_position, map_view, CelMap,
    MapStorage, Table,
};
use crate::model::{
    distinct_keys, insert_all, insert_entry, is_key, position, position_from, CoreType, ReadError,
    TypeV, Val,
};
use crate::runtime::heap::{is_forcing_old, CelHeap, Space};
use crate::runtime::interned::holds_ints;
use crate::runtime::object::{
    class_type, clone_ref, flat_at, flattened, hosted_list, hosted_map, is_copied, list_leaf_view,
    made, new_bool, new_bytes, new_double, new_duration, new_int, new_list, new_list_ints,
    new_list_window, new_map, new_map_record, new_null, new_opaque, new_optional, new_optional_none,
    new_string, new_struct, new_timestamp, new_type, new_uint, place_of, read_class, read_key,
    read_or_null, read_pairs, read_ref, read_refs, read_root, ref_pairs_view, ref_view, refs_view,
    root_view, w_place, CelClass, CelRef, Host, ListStrategy, MapStrategy, W_ListObject,
    W_MapObject, W_Root, W_StructObject,
};
use crate::time::{Duration, Timestamp};
use crate::value::{
    fields_view, opaque_view, struct_view, value_view, CelStruct, HostObject, Opaque, OptionalValue,
    TypeValue, Value,
};
use std::sync::Arc;
use vstd::prelude::*;

verus! {

/// Why a value could not cross the boundary.
#[derive(Clone, Copy, Debug, PartialEq, Eq)]
pub enum ConvertError {
    /// There is no leaf for the value.
    Unsupported(&'static str),
    /// The reference is not to a value that can be read back.
    Corrupt(&'static str),
}

/// How a failure to read back is reported.
pub open spec fn reported(e: ReadError, c: ConvertError) -> bool {
    match e {
        ReadError::NullPointer => c matches ConvertError::Corrupt(s) && s@ == "null pointer"@,
        ReadError::Class => c matches ConvertError::Unsupported(s) && s@ == "class"@,
        ReadError::Type => c matches ConvertError::Unsupported(s) && s@ == "type"@,
        ReadError::Timestamp => c matches ConvertError::Corrupt(s) && s@ == "timestamp"@,
        ReadError::Opaque => c matches ConvertError::Corrupt(s) && s@ == "opaque"@,
        ReadError::MapKey => c matches ConvertError::Corrupt(s) && s@ == "map key"@,
        ReadError::FieldName => c matches ConvertError::Corrupt(s) && s@ == "string"@,
    }
}

fn report(e: ReadError) -> (r: ConvertError)
    ensures
        reported(e, r),
{
    match e {
        ReadError::NullPointer => ConvertError::Corrupt("null pointer"),
        ReadError::Class => ConvertError::Unsupported("class"),
        ReadError::Type => ConvertError::Unsupported("type"),
        ReadError::Timestamp => ConvertError::Corrupt("timestamp"),
        ReadError::Opaque => ConvertError::Corrupt("opaque"),
        ReadError::MapKey => ConvertError::Corrupt("map key"),
        ReadError::FieldName => ConvertError::Corrupt("string"),
    }
}

/// Read a reference back as the public value.
pub fn ref_to_value(w: &CelRef) -> (r: Result<Value, ConvertError>)
    ensures
        match r {
            Ok(v) => read_ref(*w) == Ok::<Val, ReadError>(v@) && !(v is Interned),
            Err(c) => read_ref(*w) matches Err(e) && reported(e, c),
        },
{
    match w {
        None => Err(report(ReadError::NullPointer)),
        Some(leaf) => match read_leaf(leaf) {
            Ok(v) => Ok(v),
            Err(e) => Err(report(e)),
        },
    }
}

/// The type that a class is the class of, if it is one.
pub fn type_from_class(cls: CelClass) -> (r: Result<TypeValue, ReadError>)
    ensures
        match r {
            Ok(t) => read_class(cls) == Ok::<Val, ReadError>(
                Val::Type(t@),
            ),
            Err(e) => read_class(cls) == Err::<Val, ReadError>(e),
        },
{
    match cls {
        CelClass::Int => Ok(TypeValue::Core(CoreType::Int)),
        CelClass::UInt => Ok(TypeValue::Core(CoreType::UInt)),
        CelClass::Double => Ok(TypeValue::Core(CoreType::Double)),
        CelClass::Bool => Ok(TypeValue::Core(CoreType::Bool)),
        CelClass::Str => Ok(TypeValue::Core(CoreType::String)),
        CelClass::Bytes => Ok(TypeValue::Core(CoreType::Bytes)),
        CelClass::Null => Ok(TypeValue::Core(CoreType::Null)),
        CelClass::List => Ok(TypeValue::Core(CoreType::List)),
        CelClass::CelMap => Ok(TypeValue::Core(CoreType::CelMap)),
        CelClass::Type => Ok(TypeValue::Core(CoreType::Type)),
        CelClass::Optional => Ok(TypeValue::Core(CoreType::Optional)),
        CelClass::Duration => Ok(TypeValue::Core(CoreType::Duration)),
        CelClass::Timestamp => Ok(TypeValue::Core(CoreType::Timestamp)),
        CelClass::Opaque => Ok(TypeValue::Opaque(Arc::new("opaque".to_owned()))),
        CelClass::Struct | CelClass::Frame | CelClass::IntColumn => Err(ReadError::Type),
    }
}

/// Read a leaf back as the public value.
pub(crate) fn read_leaf(w: &W_Root) -> (r: Result<Value, ReadError>)
    ensures
        match r {
            Ok(v) => read_root(*w) == Ok::<Val, ReadError>(v@) && !(v is Interned),
            Err(e) => read_root(*w) == Err::<Val, ReadError>(e),
        },
    decreases w,
{
    match w {
        W_Root::Int(o) => Ok(Value::Int(o.intval)),
        W_Root::UInt(o) => Ok(Value::UInt(o.uintval)),
        W_Root::Double(o) => Ok(Value::Float(o.floatval)),
        W_Root::Bool(o) => Ok(Value::Bool(o.boolval != 0)),
        W_Root::Null(_) => Ok(Value::Null),
        W_Root::Str(o) => Ok(Value::String(o.chars.clone())),
        W_Root::Bytes(o) => Ok(Value::Bytes(o.data.bytes.clone())),
        W_Root::List(l) => match list_from_ref(l) {
            Ok(list) => Ok(Value::List(list)),
            Err(e) => Err(e),
        },
        W_Root::CelMap(m) => match map_from_ref(m) {
            Ok(map) => Ok(Value::CelMap(map)),
            Err(e) => Err(e),
        },
        W_Root::Struct(s) => match struct_from_ref(s) {
            Ok(out) => Ok(Value::Struct(Arc::new(out))),
            Err(e) => Err(e),
        },
        W_Root::Optional(o) => match &o.w_value {
            None => Ok(Value::Opaque(Arc::new(Opaque::Optional(OptionalValue::none())))),
            Some(inner) => match read_leaf(inner) {
                Ok(v) => Ok(Value::Opaque(Arc::new(Opaque::Optional(OptionalValue::of(v))))),
                Err(e) => Err(e),
            },
        },
        W_Root::Type(t) => match type_from_class(t.cls) {
            Ok(ty) => Ok(Value::Opaque(Arc::new(Opaque::Type(ty)))),
            Err(e) => Err(e),
        },
        W_Root::Opaque(o) => match &o.host {
            Some(Host::Object(h)) => Ok(
                Value::Opaque(
                    Arc::new(
                        Opaque::Host(
                            HostObject { runtime_type: h.runtime_type.clone(), token: h.token },
                        ),
                    ),
                ),
            ),
            Some(Host::OpaqueType(name)) => Ok(
                Value::Opaque(Arc::new(Opaque::Type(TypeValue::Opaque(name.clone())))),
            ),
            Some(Host::StructType(name)) => Ok(
                Value::Opaque(Arc::new(Opaque::Type(TypeValue::Struct(name.clone())))),
            ),
            _ => Err(ReadError::Opaque),
        },
        W_Root::Duration(o) => Ok(Value::Duration(Duration::nanoseconds(o.nanos))),
        W_Root::Timestamp(o) => {
            let off: i32 =
                #[verifier::truncate]
                (o.off_s as i32);
            match Timestamp::from_nanoseconds(o.nanos, off) {
                Some(t) => Ok(Value::Timestamp(t)),
                None => Err(ReadError::Timestamp),
            }
        },
        W_Root::IntColumn(_) | W_Root::Frame(_) => Err(ReadError::Class),
    }
}

/// Read a reference of a block back.
fn read_slot(slot: &CelRef) -> (r: Result<Value, ReadError>)
    ensures
        match r {
            Ok(v) => read_ref(*slot) == Ok::<Val, ReadError>(v@) && !(v is Interned),
            Err(e) => read_ref(*slot) == Err::<Val, ReadError>(e),
        },
    decreases slot,
{
    match slot {
        Some(w) => read_leaf(w),
        None => Err(ReadError::NullPointer),
    }
}

/// The list that a list leaf is read back as.
fn list_from_ref(l: &W_ListObject) -> (r: Result<ListRef, ReadError>)
    ensures
        match r {
            Ok(list) => read_root(W_Root::List(*l)) == Ok::<Val, ReadError>(Val::List(list@)),
            Err(e) => read_root(W_Root::List(*l)) == Err::<Val, ReadError>(e),
        },
    decreases l,
{
    proof {
        use_type_invariant(l);
    }
    match l.strategy {
        ListStrategy::Object => {
            let mut items: Vec<Value> = Vec::new();
            let mut i: usize = 0;
            assert(values_view(items@) =~= Seq::<Val>::empty());
            while i < l.length
                invariant
                    i <= l.length,
                    l.start + l.length <= l.items.slots@.len(),
                    l.start + l.length <= usize::MAX,
                    l.strategy == ListStrategy::Object,
                    read_refs(l.items.slots@, l.start as int, i as nat) == Ok::<
                        Seq<Val>,
                        ReadError,
                    >(values_view(items@)),
                decreases l.length - i,
            {
                match read_slot(&l.items.slots[l.start + i]) {
                    Ok(v) => {
                        let ghost prev = values_view(items@);
                        items.push(v);
                        assert(values_view(items@) =~= prev.push(v@));
                    },
                    Err(e) => {
                        proof {
                            lemma_read_refs_fails(
                                l.items.slots@,
                                l.start as int,
                                (i + 1) as nat,
                                l.length as nat,
                                e,
                            );
                        }
                        return Err(e);
                    },
                }
                i = i + 1;
            }
            Ok(ListRef::from_vec(items))
        },
        ListStrategy::Ints => {
            let mut ints: Vec<i64> = Vec::new();
            if let Some(w) = &l.storage {
                if let W_Root::IntColumn(c) = &**w {
                    let mut i: usize = 0;
                    while i < l.length
                        invariant
                            i <= l.length,
                            l.start + l.length <= c.data@.len(),
                            l.start + l.length <= usize::MAX,
                            ints@ == c.data@.subrange(l.start as int, l.start + i),
                        decreases l.length - i,
                    {
                        ints.push(c.data[l.start + i]);
                        assert(ints@ =~= c.data@.subrange(l.start as int, l.start + i + 1));
                        i = i + 1;
                    }
                }
            }
            let list = ListRef::whole(Arc::new(ListStorage::Ints(ints)));
            assert(list@ =~= list_leaf_view(*l));
            Ok(list)
        },
        ListStrategy::Window => {
            let list = hosted_window(l);
            Ok(list)
        },
    }
}

/// The window that a window leaf is.
pub(crate) fn hosted_window(l: &W_ListObject) -> (r: ListRef)
    requires
        l.strategy == ListStrategy::Window,
    ensures
        r@ == list_leaf_view(*l),
{
    proof {
        use_type_invariant(l);
    }
    if let Some(w) = &l.storage {
        if let W_Root::Opaque(o) = &**w {
            if let Some(Host::List(list)) = &o.host {
                return list.slice(l.start, l.length);
            }
        }
    }
    let list: ListRef = Default::default();
    assert(list@ =~= list_leaf_view(*l));
    list
}

/// A reading that fails stays failed.
proof fn lemma_read_refs_fails(slots: Seq<CelRef>, start: int, n: nat, m: nat, e: ReadError)
    requires
        0 < n <= m,
        0 <= start,
        start + m <= slots.len(),
        read_refs(slots, start, n) == Err::<Seq<Val>, ReadError>(e),
    ensures
        read_refs(slots, start, m) == Err::<Seq<Val>, ReadError>(e),
    decreases m,
{
    if n < m {
        lemma_read_refs_fails(slots, start, n, (m - 1) as nat, e);
    }
}

/// A reading of pairs that fails stays failed.
proof fn lemma_read_pairs_fails(slots: Seq<CelRef>, n: nat, m: nat, named: bool, e: ReadError)
    requires
        0 < n <= m,
        2 * m <= slots.len(),
        read_pairs(slots, n, named) == Err::<Seq<(Val, Val)>, ReadError>(e),
    ensures
        read_pairs(slots, m, named) == Err::<Seq<(Val, Val)>, ReadError>(e),
    decreases m,
{
    if n < m {
        lemma_read_pairs_fails(slots, n, (m - 1) as nat, named, e);
    }
}

/// The map that a map leaf is read back as.
fn map_from_ref(m: &W_MapObject) -> (r: Result<CelMap, ReadError>)
    ensures
        match r {
            Ok(map) => read_root(W_Root::CelMap(*m)) == Ok::<Val, ReadError>(Val::CelMap(map@)),
            Err(e) => read_root(W_Root::CelMap(*m)) == Err::<Val, ReadError>(e),
        },
    decreases m,
{
    proof {
        use_type_invariant(m);
    }
    match m.strategy {
        MapStrategy::Object => {
            let mut table = Table::new();
            let mut i: usize = 0;
            while i < m.length
                invariant
                    i <= m.length,
                    2 * m.length <= m.items.slots@.len(),
                    m.strategy == MapStrategy::Object,
                    read_pairs(m.items.slots@, i as nat, false) == Ok::<Seq<(Val, Val)>, ReadError>(
                        table@,
                    ),
                decreases m.length - i,
            {
                let n: usize = m.items.slots.len();
                assert(2 * i + 1 < n);
                let key = match read_slot(&m.items.slots[2 * i]) {
                    Ok(Value::Int(k)) => crate::key::Key::Int(k),
                    Ok(Value::UInt(k)) => crate::key::Key::Uint(k),
                    Ok(Value::Bool(k)) => crate::key::Key::Bool(k),
                    Ok(Value::String(k)) => crate::key::Key::String(k),
                    Ok(v) => {
                        proof {
                            lemma_read_pairs_fails(
                                m.items.slots@,
                                (i + 1) as nat,
                                m.length as nat,
                                false,
                                ReadError::MapKey,
                            );
                        }
                        return Err(ReadError::MapKey);
                    },
                    Err(e) => {
                        proof {
                            lemma_read_pairs_fails(
                                m.items.slots@,
                                (i + 1) as nat,
                                m.length as nat,
                                false,
                                e,
                            );
                        }
                        return Err(e);
                    },
                };
                match read_slot(&m.items.slots[2 * i + 1]) {
                    Ok(v) => {
                        table.insert(key, v);
                    },
                    Err(e) => {
                        proof {
                            lemma_read_pairs_fails(
                                m.items.slots@,
                                (i + 1) as nat,
                                m.length as nat,
                                false,
                                e,
                            );
                        }
                        return Err(e);
                    },
                }
                i = i + 1;
            }
            Ok(CelMap::object(Arc::new(table)))
        },
        MapStrategy::Record => Ok(hosted_row(m)),
    }
}

/// The record row that a record leaf is.
pub(crate) fn hosted_row(m: &W_MapObject) -> (r: CelMap)
    requires
        m.strategy == MapStrategy::Record,
    ensures
        r@ == hosted_map(m.storage),
{
    if let Some(w) = &m.storage {
        if let W_Root::Opaque(o) = &**w {
            if let Some(Host::CelMap(map)) = &o.host {
                return map.clone();
            }
        }
    }
    CelMap::object(Arc::new(Table::new()))
}

/// The string that a reference refers to, if it is one.
fn slot_name(slot: &CelRef) -> (r: Option<Arc<String>>)
    ensures
        match r {
            Some(s) => ref_view(*slot) == Val::Str(s@),
            None => !(ref_view(*slot) is Str),
        },
{
    match slot {
        None => None,
        Some(w) => match &**w {
            W_Root::Str(o) => Some(o.chars.clone()),
            _ => None,
        },
    }
}

/// The struct that a struct leaf is read back as.
fn struct_from_ref(s: &W_StructObject) -> (r: Result<CelStruct, ReadError>)
    ensures
        match r {
            Ok(out) => read_root(W_Root::Struct(*s)) == Ok::<Val, ReadError>(struct_view(out)),
            Err(e) => read_root(W_Root::Struct(*s)) == Err::<Val, ReadError>(e),
        },
    decreases s,
{
    proof {
        use_type_invariant(s);
    }
    let mut out = CelStruct::new((*s.name).clone());
    let mut i: usize = 0;
    while i < s.length
        invariant
            i <= s.length,
            2 * s.length <= s.fields.slots@.len(),
            read_pairs(s.fields.slots@, i as nat, true) matches Ok(f) && struct_view(out)
                == Val::Struct(s.name@, f),
        decreases s.length - i,
    {
        let n: usize = s.fields.slots.len();
        assert(2 * i + 1 < n);
        let name = slot_name(&s.fields.slots[2 * i]);
        match name {
            None => {
                proof {
                    lemma_read_pairs_fails(
                        s.fields.slots@,
                        (i + 1) as nat,
                        s.length as nat,
                        true,
                        ReadError::FieldName,
                    );
                }
                return Err(ReadError::FieldName);
            },
            Some(name) => match read_slot(&s.fields.slots[2 * i + 1]) {
                Ok(v) => {
                    out.add_field_value((*name).clone(), v);
                },
                Err(e) => {
                    proof {
                        lemma_read_pairs_fails(
                            s.fields.slots@,
                            (i + 1) as nat,
                            s.length as nat,
                            true,
                            e,
                        );
                    }
                    return Err(e);
                },
            },
        }
        i = i + 1;
    }
    Ok(out)
}

// ---------------------------------------------------------------------------
// From values to leaves.

/// Why a value has no leaf: its nanoseconds do not fit in 64 bits.
#[derive(Clone, Copy, Debug, PartialEq, Eq, Structural)]
pub enum LeafError {
    Duration,
    Timestamp,
}

/// How the lack of a leaf is reported.
pub open spec fn leaf_reported(e: LeafError, c: ConvertError) -> bool {
    match e {
        LeafError::Duration => c matches ConvertError::Unsupported(s) && s@ == "duration"@,
        LeafError::Timestamp => c matches ConvertError::Unsupported(s) && s@ == "timestamp"@,
    }
}

/// What the leaf of a value is, or why there is none.
///
/// Durations and timestamps must fit. A map, an optional and a struct have a leaf
/// if what they hold has. A list always has one: an element of a list of values
/// that has no leaf becomes null, and a list over any other buffer is hosted as it
/// is.
pub open(crate) spec fn interned_of(v: Value, nursery: Option<Space>) -> Result<Val, LeafError>
    decreases v, 0nat,
{
    match v {
        Value::Interned(w) => Ok(
            if is_copied(*w, nursery) {
                v@
            } else {
                root_view(*w)
            },
        ),
        Value::Duration(d) => if i64::MIN <= d@ <= i64::MAX {
            Ok(Val::Duration(d@))
        } else {
            Err(LeafError::Duration)
        },
        Value::Timestamp(t) => if i64::MIN <= t@.nanos <= i64::MAX {
            Ok(Val::Timestamp(t@.smoothed()))
        } else {
            Err(LeafError::Timestamp)
        },
        Value::List(l) => Ok(Val::List(interned_list(l, nursery))),
        Value::CelMap(m) => match m.storage {
            MapStorage::Object(t) => entries_result(interned_pairs(t.pairs@, t.pairs@.len(), nursery)),
            MapStorage::Entries(e) => entries_result(
                interned_pairs(e.entries.pairs@, e.entries.pairs@.len(), nursery),
            ),
            MapStorage::Record { .. } => Ok(Val::CelMap(map_view(m))),
        },
        Value::Opaque(o) => match *o {
            Opaque::Optional(opt) => match opt.value {
                None => Ok(Val::Optional(None)),
                Some(x) => match interned_of(x, nursery) {
                    Ok(y) => Ok(Val::Optional(Some(Box::new(y)))),
                    Err(e) => Err(e),
                },
            },
            other => Ok(opaque_view(other)),
        },
        Value::Struct(s) => match interned_fields(s.fields@, s.fields@.len(), nursery) {
            Ok(fields) => Ok(Val::Struct(s.name@, fields)),
            Err(e) => Err(e),
        },
        other => Ok(value_view(other)),
    }
}

/// A map leaf's entries as its value.
pub open spec fn entries_result(r: Result<Seq<(Val, Val)>, LeafError>) -> Result<Val, LeafError> {
    match r {
        Ok(entries) => Ok(Val::CelMap(entries)),
        Err(e) => Err(e),
    }
}

/// What an element of a list of values becomes.
pub open(crate) spec fn interned_or_null(v: Value, nursery: Option<Space>) -> Val
    decreases v, 1nat,
{
    match interned_of(v, nursery) {
        Ok(x) => x,
        Err(_) => Val::Null,
    }
}

/// The elements of a list's leaf.
pub open(crate) spec fn interned_list(l: ListRef, nursery: Option<Space>) -> Seq<Val>
    decreases l, 0nat,
{
    match *l.buf {
        ListStorage::Object(items) => if l.start == 0 && l.len == items@.len() {
            Seq::new(
                items@.len(),
                |i: int|
                    if 0 <= i < items@.len() {
                        interned_or_null(items@[i], nursery)
                    } else {
                        arbitrary()
                    },
            )
        } else {
            list_view(l)
        },
        _ => list_view(l),
    }
}

/// The first `n` entries of a map's leaf, or why there is none.
pub open(crate) spec fn interned_pairs(
    pairs: Seq<(Key, Value)>,
    n: nat,
    nursery: Option<Space>,
) -> Result<
    Seq<(Val, Val)>,
    LeafError,
>
    decreases pairs, n,
{
    if n == 0 || n > pairs.len() {
        Ok(Seq::empty())
    } else {
        match interned_pairs(pairs, (n - 1) as nat, nursery) {
            Err(e) => Err(e),
            Ok(entries) => match interned_of(pairs[n - 1].1, nursery) {
                Err(e) => Err(e),
                Ok(x) => Ok(entries.push((pairs[n - 1].0@, x))),
            },
        }
    }
}

/// The first `n` fields of a struct's leaf, or why there is none.
pub open(crate) spec fn interned_fields(
    fields: Seq<(String, Value)>,
    n: nat,
    nursery: Option<Space>,
) -> Result<
    Seq<(Val, Val)>,
    LeafError,
>
    decreases fields, n,
{
    if n == 0 || n > fields.len() {
        Ok(Seq::empty())
    } else {
        match interned_fields(fields, (n - 1) as nat, nursery) {
            Err(e) => Err(e),
            Ok(entries) => match interned_of(fields[n - 1].1, nursery) {
                Err(e) => Err(e),
                Ok(x) => Ok(entries.push((Val::Str(fields[n - 1].0@), x))),
            },
        }
    }
}

/// Whether nothing is lost on the way to the leaf: every element of a list of
/// values has a leaf, and every leaf in the value can be read back.
pub open(crate) spec fn lossless(v: Value, nursery: Option<Space>) -> bool
    decreases v,
{
    match v {
        Value::Interned(w) => is_copied(*w, nursery) || read_root(*w) is Ok,
        Value::List(l) => match *l.buf {
            ListStorage::Object(items) => l.start == 0 && l.len == items@.len() ==> forall|i: int|
                0 <= i < items@.len() ==> interned_of(#[trigger] items@[i], nursery) is Ok && lossless(
                    items@[i],
                    nursery,
                ),
            _ => true,
        },
        Value::CelMap(m) => match m.storage {
            MapStorage::Object(t) => forall|i: int|
                0 <= i < t.pairs@.len() ==> lossless((#[trigger] t.pairs@[i]).1, nursery),
            MapStorage::Entries(e) => forall|i: int|
                0 <= i < e.entries.pairs@.len() ==> lossless((#[trigger] e.entries.pairs@[i]).1, nursery),
            MapStorage::Record { .. } => true,
        },
        Value::Opaque(o) => match *o {
            Opaque::Optional(opt) => match opt.value {
                None => true,
                Some(x) => lossless(x, nursery),
            },
            _ => true,
        },
        Value::Struct(s) => forall|i: int|
            0 <= i < s.fields@.len() ==> lossless((#[trigger] s.fields@[i]).1, nursery),
        Value::Timestamp(t) => !t@.leap,
        _ => true,
    }
}

proof fn lemma_read_refs_all(slots: Seq<CelRef>, vals: Seq<Val>, n: nat)
    requires
        slots.len() == vals.len(),
        n <= slots.len(),
        forall|i: int|
            0 <= i < slots.len() ==> read_ref(#[trigger] slots[i]) == Ok::<Val, ReadError>(vals[i]),
    ensures
        read_refs(slots, 0, n) == Ok::<Seq<Val>, ReadError>(vals.take(n as int)),
    decreases n,
{
    if n == 0 {
        assert(vals.take(0) =~= Seq::<Val>::empty());
    } else {
        lemma_read_refs_all(slots, vals, (n - 1) as nat);
        assert(read_ref(slots[n - 1]) == Ok::<Val, ReadError>(vals[n - 1]));
        assert(vals.take(n as int) =~= vals.take(n - 1).push(vals[n - 1]));
    }
}

/// Whether a pair of references is read back as an entry.
spec fn reads_as(pair: (CelRef, CelRef), entry: (Val, Val), named: bool) -> bool {
    &&& if named {
        ref_view(pair.0) == entry.0 && entry.0 is Str
    } else {
        read_ref(pair.0) == Ok::<Val, ReadError>(entry.0) && is_key(entry.0)
    }
    &&& read_ref(pair.1) == Ok::<Val, ReadError>(entry.1)
}

proof fn lemma_read_pairs_all(
    pairs: Seq<(CelRef, CelRef)>,
    entries: Seq<(Val, Val)>,
    n: nat,
    named: bool,
)
    requires
        pairs.len() == entries.len(),
        n <= pairs.len(),
        forall|i: int|
            0 <= i < pairs.len() ==> reads_as(#[trigger] pairs[i], entries[i], named),
    ensures
        read_pairs(flattened(pairs), n, named) == Ok::<Seq<(Val, Val)>, ReadError>(
            insert_all(entries.take(n as int)),
        ),
    decreases n,
{
    let slots = flattened(pairs);
    if n == 0 {
        assert(entries.take(0) =~= Seq::<(Val, Val)>::empty());
    } else {
        lemma_read_pairs_all(pairs, entries, (n - 1) as nat, named);
        assert(reads_as(pairs[n - 1], entries[n - 1], named));
        assert(slots[2 * n - 2] == flat_at(pairs, 2 * n - 2));
        assert(slots[2 * n - 1] == flat_at(pairs, 2 * n - 1));
        let step = entries.take(n as int);
        assert(step.drop_last() =~= entries.take(n - 1));
        assert(step.last() == entries[n - 1]);
    }
}

/// The class of a core type.
pub open spec fn core_class(t: CoreType) -> CelClass {
    match t {
        CoreType::Int => CelClass::Int,
        CoreType::UInt => CelClass::UInt,
        CoreType::Double => CelClass::Double,
        CoreType::Bool => CelClass::Bool,
        CoreType::String => CelClass::Str,
        CoreType::Bytes => CelClass::Bytes,
        CoreType::Null => CelClass::Null,
        CoreType::List => CelClass::List,
        CoreType::CelMap => CelClass::CelMap,
        CoreType::Type => CelClass::Type,
        CoreType::Optional => CelClass::Optional,
        CoreType::Duration => CelClass::Duration,
        CoreType::Timestamp => CelClass::Timestamp,
    }
}

/// The class of a core type.
pub fn type_class(t: CoreType) -> (r: CelClass)
    ensures
        r == core_class(t),
        class_type(r) == TypeV::Core(t),
{
    match t {
        CoreType::Int => CelClass::Int,
        CoreType::UInt => CelClass::UInt,
        CoreType::Double => CelClass::Double,
        CoreType::Bool => CelClass::Bool,
        CoreType::String => CelClass::Str,
        CoreType::Bytes => CelClass::Bytes,
        CoreType::Null => CelClass::Null,
        CoreType::List => CelClass::List,
        CoreType::CelMap => CelClass::CelMap,
        CoreType::Type => CelClass::Type,
        CoreType::Optional => CelClass::Optional,
        CoreType::Duration => CelClass::Duration,
        CoreType::Timestamp => CelClass::Timestamp,
    }
}

/// The leaf of a key.
pub fn key_to_ref(heap: &mut CelHeap, k: &Key) -> (r: CelRef)
    requires
        old(heap).wf(),
    ensures
        final(heap).grown_from(old(heap)),
        ref_view(r) == k@,
        read_ref(r) == Ok::<Val, ReadError>(k@),
        r matches Some(w) && made(old(heap), final(heap), *w),
{
    match k {
        Key::Int(i) => new_int(heap, *i),
        Key::Uint(u) => new_uint(heap, *u),
        Key::Bool(b) => new_bool(*b),
        Key::String(s) => new_string(heap, s),
    }
}

/// The key that a reference is read back as.
pub fn ref_to_key(w: &CelRef) -> (r: Result<Key, ConvertError>)
    ensures
        match r {
            Ok(k) => read_key(read_ref(*w)) == Ok::<Val, ReadError>(k@),
            Err(c) => read_key(read_ref(*w)) matches Err(e) && reported(e, c),
        },
{
    match ref_to_value(w) {
        Ok(Value::Int(i)) => Ok(Key::Int(i)),
        Ok(Value::UInt(u)) => Ok(Key::Uint(u)),
        Ok(Value::Bool(b)) => Ok(Key::Bool(b)),
        Ok(Value::String(s)) => Ok(Key::String(s)),
        Ok(_) => Err(report(ReadError::MapKey)),
        Err(e) => Err(e),
    }
}

/// The copies of `n` references from `start` on, which can be read back.
fn copy_refs(heap: &mut CelHeap, slots: &Vec<CelRef>, start: usize, n: usize) -> (r: Vec<CelRef>)
    requires
        old(heap).wf(),
        old(heap).forced() > 0,
        start + n <= slots@.len(),
        start + n <= usize::MAX,
        read_refs(slots@, start as int, n as nat) is Ok,
    ensures
        final(heap).grown_from(old(heap)),
        ({
            let vals = read_refs(slots@, start as int, n as nat)->Ok_0;
            &&& r@.len() == n
            &&& vals.len() == n
            &&& forall|j: int|
                0 <= j < n ==> ref_view(#[trigger] r@[j]) == vals[j] && read_ref(r@[j]) == Ok::<
                    Val,
                    ReadError,
                >(vals[j])
        }),
    decreases slots, 0nat,
{
    let mut out: Vec<CelRef> = Vec::new();
    let mut i: usize = 0;
    proof {
        lemma_read_refs_prefix(slots@, start as int, 0, n as nat);
    }
    while i < n
        invariant
            heap.grown_from(old(heap)),
            old(heap).forced() > 0,
            i <= n,
            start + n <= slots@.len(),
            start + n <= usize::MAX,
            read_refs(slots@, start as int, n as nat) is Ok,
            read_refs(slots@, start as int, i as nat) is Ok,
            read_refs(slots@, start as int, i as nat)->Ok_0.len() == i,
            out@.len() == i,
            forall|j: int|
                0 <= j < i ==> ref_view(#[trigger] out@[j]) == read_refs(
                    slots@,
                    start as int,
                    i as nat,
                )->Ok_0[j] && read_ref(out@[j]) == Ok::<Val, ReadError>(
                    read_refs(slots@, start as int, i as nat)->Ok_0[j],
                ),
        decreases n - i,
    {
        proof {
            lemma_read_refs_prefix(slots@, start as int, (i + 1) as nat, n as nat);
            assert(decreases_to!(slots => slots@[start + i]));
        }
        let x = copy_slot(heap, &slots[start + i]);
        out.push(x);
        i = i + 1;
    }
    out
}

/// What is read of a part of the references that can be read.
proof fn lemma_read_refs_prefix(slots: Seq<CelRef>, start: int, k: nat, n: nat)
    requires
        k <= n,
        0 <= start,
        start + n <= slots.len(),
        read_refs(slots, start, n) is Ok,
    ensures
        read_refs(slots, start, k) is Ok,
        read_refs(slots, start, k)->Ok_0.len() == k,
        k > 0 ==> read_ref(slots[start + k - 1]) is Ok,
    decreases n,
{
    if k < n {
        lemma_read_refs_prefix(slots, start, k, (n - 1) as nat);
    } else if n > 0 {
        lemma_read_refs_prefix(slots, start, (n - 1) as nat, (n - 1) as nat);
    }
}

/// What is read of a part of the pairs that can be read.
proof fn lemma_read_pairs_prefix(slots: Seq<CelRef>, k: nat, n: nat, named: bool)
    requires
        k <= n,
        2 * n <= slots.len(),
        read_pairs(slots, n, named) is Ok,
    ensures
        read_pairs(slots, k, named) is Ok,
        k > 0 ==> read_ref(slots[2 * k - 1]) is Ok,
        k > 0 ==> if named {
            ref_view(slots[2 * k - 2]) is Str
        } else {
            read_key(read_ref(slots[2 * k - 2])) is Ok
        },
    decreases n,
{
    if k < n {
        lemma_read_pairs_prefix(slots, k, (n - 1) as nat, named);
    }
}

/// The key of a pair that can be read back: a map's key, or a field's name.
fn slot_key(slot: &CelRef, named: bool) -> (r: Key)
    requires
        if named {
            ref_view(*slot) is Str
        } else {
            read_key(read_ref(*slot)) is Ok
        },
    ensures
        r@ == if named {
            ref_view(*slot)
        } else {
            read_key(read_ref(*slot))->Ok_0
        },
        named ==> r@ is Str,
{
    if named {
        match slot_name(slot) {
            Some(s) => Key::String(s),
            None => Key::Bool(false),
        }
    } else {
        match ref_to_key(slot) {
            Ok(k) => k,
            Err(_) => Key::Bool(false),
        }
    }
}

/// The place of a key.
fn key_position(keys: &Vec<Key>, key: &Key, entries: Ghost<Seq<(Val, Val)>>) -> (r: Option<usize>)
    requires
        keys@.len() == entries@.len(),
        forall|j: int| 0 <= j < keys@.len() ==> (#[trigger] keys@[j])@ == entries@[j].0,
    ensures
        match r {
            Some(i) => i < keys@.len() && position(entries@, key@) == i,
            None => position(entries@, key@) == -1,
        },
{
    let mut i: usize = 0;
    while i < keys.len()
        invariant
            i <= keys@.len(),
            keys@.len() == entries@.len(),
            forall|j: int| 0 <= j < keys@.len() ==> (#[trigger] keys@[j])@ == entries@[j].0,
            position(entries@, key@) == position_from(entries@, key@, i as int),
        decreases keys@.len() - i,
    {
        if keys[i].as_keyref().same(key.as_keyref()) {
            return Some(i);
        }
        i = i + 1;
    }
    None
}

/// The copies of the first `n` pairs of references, which can be read back, with a later
/// value in place of an earlier one under the same key.
fn copy_pairs(heap: &mut CelHeap, slots: &Vec<CelRef>, n: usize, named: bool) -> (r: Vec<
    (CelRef, CelRef),
>)
    requires
        old(heap).wf(),
        old(heap).forced() > 0,
        2 * n <= slots@.len(),
        read_pairs(slots@, n as nat, named) is Ok,
    ensures
        final(heap).grown_from(old(heap)),
        ({
            let entries = read_pairs(slots@, n as nat, named)->Ok_0;
            &&& ref_pairs_view(r@) == entries
            &&& distinct_keys(entries)
            &&& forall|j: int|
                0 <= j < r@.len() ==> reads_as(#[trigger] r@[j], entries[j], named)
        }),
    decreases slots, 0nat,
{
    let mut keys: Vec<Key> = Vec::new();
    let mut out: Vec<(CelRef, CelRef)> = Vec::new();
    let ghost mut entries: Seq<(Val, Val)> = Seq::empty();
    let mut i: usize = 0;
    while i < n
        invariant
            heap.grown_from(old(heap)),
            old(heap).forced() > 0,
            i <= n,
            2 * n <= slots@.len(),
            read_pairs(slots@, n as nat, named) is Ok,
            read_pairs(slots@, i as nat, named) == Ok::<Seq<(Val, Val)>, ReadError>(entries),
            distinct_keys(entries),
            keys@.len() == entries.len(),
            out@.len() == entries.len(),
            forall|j: int| 0 <= j < keys@.len() ==> (#[trigger] keys@[j])@ == entries[j].0,
            forall|j: int|
                0 <= j < out@.len() ==> reads_as(#[trigger] out@[j], entries[j], named) && ref_view(
                    out@[j].0,
                ) == entries[j].0 && ref_view(out@[j].1) == entries[j].1,
        decreases n - i,
    {
        let len: usize = slots.len();
        assert(2 * i + 1 < len);
        proof {
            lemma_read_pairs_prefix(slots@, (i + 1) as nat, n as nat, named);
            assert(decreases_to!(slots => slots@[2 * i + 1]));
        }
        let key = slot_key(&slots[2 * i], named);
        let x = copy_slot(heap, &slots[2 * i + 1]);
        let ghost v = read_ref(slots@[2 * i + 1])->Ok_0;
        proof {
            key_is_key(key);
            lemma_insert_keeps_distinct(entries, key@, v);
            lemma_position(entries, key@);
        }
        let at = key_position(&keys, &key, Ghost(entries));
        let ghost before = entries;
        proof {
            entries = insert_entry(entries, key@, v);
        }
        match at {
            Some(p) => {
                let k = clone_ref(&out[p].0);
                out[p] = (k, x);
                assert(entries =~= before.update(p as int, (before[p as int].0, v)));
            },
            None => {
                let k = key_to_ref(heap, &key);
                out.push((k, x));
                keys.push(key);
                assert(entries =~= before.push((key@, v)));
            },
        }
        i = i + 1;
    }
    assert(ref_pairs_view(out@) =~= entries);
    out
}

/// The copy of a reference that can be read back.
fn copy_slot(heap: &mut CelHeap, slot: &CelRef) -> (r: CelRef)
    requires
        old(heap).wf(),
        old(heap).forced() > 0,
        read_ref(*slot) is Ok,
    ensures
        final(heap).grown_from(old(heap)),
        r is Some,
        ref_view(r) == read_ref(*slot)->Ok_0,
        read_ref(r) == read_ref(*slot),
    decreases slot,
{
    match slot {
        Some(w) => copy_leaf(heap, w),
        None => None,
    }
}

/// The integers of a list, if there are any and all elements are integers.
fn refs_as_ints(refs: &Vec<CelRef>) -> (r: Option<Vec<i64>>)
    ensures
        match r {
            Some(ints) => ints@.len() == refs@.len() && refs_view(refs@) == ints_view(ints@),
            None => true,
        },
{
    if refs.len() == 0 {
        return None;
    }
    let mut ints: Vec<i64> = Vec::new();
    let mut i: usize = 0;
    while i < refs.len()
        invariant
            i <= refs@.len(),
            ints@.len() == i,
            forall|j: int| 0 <= j < i ==> ref_view(#[trigger] refs@[j]) == Val::Int(ints@[j]),
        decreases refs@.len() - i,
    {
        match &refs[i] {
            Some(w) => match &**w {
                W_Root::Int(o) => ints.push(o.intval),
                _ => {
                    return None;
                },
            },
            None => {
                return None;
            },
        }
        i = i + 1;
    }
    assert(refs_view(refs@) =~= ints_view(ints@));
    Some(ints)
}

/// The copy of a list leaf that can be read back.
fn copy_list(heap: &mut CelHeap, l: &W_ListObject) -> (r: CelRef)
    requires
        old(heap).wf(),
        old(heap).forced() > 0,
        read_root(W_Root::List(*l)) is Ok,
    ensures
        final(heap).grown_from(old(heap)),
        r matches Some(w) && made(old(heap), final(heap), *w),
        ref_view(r) == read_root(W_Root::List(*l))->Ok_0,
        read_ref(r) == read_root(W_Root::List(*l)),
    decreases l, 0nat,
{
    proof {
        use_type_invariant(l);
    }
    match l.strategy {
        ListStrategy::Object => {
            assert(decreases_to!(l => l.items));
            assert(decreases_to!(l.items => l.items.slots));
            let refs = copy_refs(heap, &l.items.slots, l.start, l.length);
            let ghost vals = read_refs(l.items.slots@, l.start as int, l.length as nat)->Ok_0;
            assert(refs_view(refs@) =~= vals);
            if let Some(ints) = refs_as_ints(&refs) {
                return new_list_ints(heap, ints);
            }
            let r = new_list(heap, &refs);
            proof {
                lemma_read_refs_all(refs@, vals, refs@.len());
                assert(vals.take(refs@.len() as int) =~= vals);
            }
            r
        },
        ListStrategy::Ints => {
            let mut ints: Vec<i64> = Vec::new();
            if let Some(w) = &l.storage {
                if let W_Root::IntColumn(c) = &**w {
                    let mut i: usize = 0;
                    while i < l.length
                        invariant
                            i <= l.length,
                            l.start + l.length <= c.data@.len(),
                            l.start + l.length <= usize::MAX,
                            ints@ == c.data@.subrange(l.start as int, l.start + i),
                        decreases l.length - i,
                    {
                        ints.push(c.data[l.start + i]);
                        assert(ints@ =~= c.data@.subrange(l.start as int, l.start + i + 1));
                        i = i + 1;
                    }
                }
            }
            assert(ints_view(ints@) =~= list_leaf_view(*l));
            new_list_ints(heap, ints)
        },
        ListStrategy::Window => {
            let list = hosted_window(l);
            intern_window(heap, &list)
        },
    }
}

/// [`copy_leaf`] of a map.
fn copy_map(heap: &mut CelHeap, m: &W_MapObject) -> (r: CelRef)
    requires
        old(heap).wf(),
        old(heap).forced() > 0,
        read_root(W_Root::CelMap(*m)) is Ok,
    ensures
        final(heap).grown_from(old(heap)),
        r matches Some(x) && made(old(heap), final(heap), *x),
        ref_view(r) == read_root(W_Root::CelMap(*m))->Ok_0,
        read_ref(r) == read_root(W_Root::CelMap(*m)),
    decreases m,
{
    proof {
        use_type_invariant(m);
    }
    match m.strategy {
        MapStrategy::Object => {
            assert(decreases_to!(m => m.items));
            assert(decreases_to!(m.items => m.items.slots));
            let pairs = copy_pairs(heap, &m.items.slots, m.length, false);
            let ghost entries = ref_pairs_view(pairs@);
            let r = new_map(heap, &pairs);
            proof {
                lemma_read_pairs_all(pairs@, entries, pairs@.len(), false);
                assert(entries.take(pairs@.len() as int) =~= entries);
                lemma_insert_all_distinct(entries);
            }
            r
        },
        MapStrategy::Record => {
            let map = hosted_row(m);
            let n: usize = map.len();
            let ghost view = map@;
            let host = intern_host(heap, Host::CelMap(map));
            assert(hosted_map(host) == view);
            new_map_record(heap, host, n)
        },
    }
}

/// [`copy_leaf`] of a struct.
fn copy_struct(heap: &mut CelHeap, s: &W_StructObject) -> (r: CelRef)
    requires
        old(heap).wf(),
        old(heap).forced() > 0,
        read_root(W_Root::Struct(*s)) is Ok,
    ensures
        final(heap).grown_from(old(heap)),
        r matches Some(x) && made(old(heap), final(heap), *x),
        ref_view(r) == read_root(W_Root::Struct(*s))->Ok_0,
        read_ref(r) == read_root(W_Root::Struct(*s)),
    decreases s,
{
    proof {
        use_type_invariant(s);
    }
    assert(decreases_to!(s => s.fields));
    assert(decreases_to!(s.fields => s.fields.slots));
    let _name = new_string(heap, &s.name);
    let pairs = copy_pairs(heap, &s.fields.slots, s.length, true);
    let ghost entries = ref_pairs_view(pairs@);
    let r = new_struct(heap, s.name.clone(), &pairs);
    proof {
        lemma_read_pairs_all(pairs@, entries, pairs@.len(), true);
        assert(entries.take(pairs@.len() as int) =~= entries);
        lemma_insert_all_distinct(entries);
    }
    r
}

/// The copy of a leaf that can be read back: a leaf of what it is read back as, in old
/// space or in the region that is being filled. What the host keeps is shared.
fn copy_leaf(heap: &mut CelHeap, w: &W_Root) -> (r: CelRef)
    requires
        old(heap).wf(),
        old(heap).forced() > 0,
        read_root(*w) is Ok,
    ensures
        final(heap).grown_from(old(heap)),
        r matches Some(x) && made(old(heap), final(heap), *x),
        ref_view(r) == read_root(*w)->Ok_0,
        read_ref(r) == read_root(*w),
    decreases w,
{
    match w {
        W_Root::Int(o) => new_int(heap, o.intval),
        W_Root::UInt(o) => new_uint(heap, o.uintval),
        W_Root::Double(o) => new_double(heap, o.floatval),
        W_Root::Bool(o) => new_bool(o.boolval != 0),
        W_Root::Null(_) => new_null(),
        W_Root::Duration(o) => new_duration(heap, o.nanos),
        W_Root::Timestamp(o) => {
            let off: i32 =
                #[verifier::truncate]
                (o.off_s as i32);
            new_timestamp(heap, o.nanos, off as i64)
        },
        W_Root::Str(o) => new_string(heap, &o.chars),
        W_Root::Bytes(o) => new_bytes(heap, &o.data.bytes),
        W_Root::Optional(o) => match &o.w_value {
            None => new_optional_none(heap),
            Some(inner) => match copy_leaf(heap, inner) {
                Some(x) => new_optional(heap, x),
                None => None,
            },
        },
        W_Root::List(l) => copy_list(heap, l),
        W_Root::CelMap(m) => copy_map(heap, m),
        W_Root::Struct(s) => copy_struct(heap, s),
        W_Root::Type(t) => match t.cls {
            CelClass::Opaque => intern_host(heap, Host::OpaqueType(Arc::new("opaque".to_owned()))),
            cls => new_type(heap, cls),
        },
        W_Root::Opaque(o) => match &o.host {
            Some(h) => intern_host(heap, h.clone()),
            None => None,
        },
        W_Root::IntColumn(_) | W_Root::Frame(_) => None,
    }
}

/// The copy of a leaf that must not die with the evaluation. What cannot be read back is
/// null.
fn copy_out(heap: &mut CelHeap, w: &W_Root) -> (r: CelRef)
    requires
        old(heap).wf(),
        old(heap).forced() > 0,
    ensures
        final(heap).grown_from(old(heap)),
        r matches Some(x) && made(old(heap), final(heap), *x),
        ref_view(r) == read_or_null(read_root(*w)),
        read_ref(r) == Ok::<Val, ReadError>(read_or_null(read_root(*w))),
{
    match read_leaf(w) {
        Ok(_) => copy_leaf(heap, w),
        Err(_) => new_null(),
    }
}

/// Park a host and make its leaf.
fn intern_host(heap: &mut CelHeap, host: Host) -> (r: CelRef)
    requires
        old(heap).wf(),
    ensures
        final(heap).grown_from(old(heap)),
        r matches Some(w) && *w matches W_Root::Opaque(o) && o.host == Some(host),
        r matches Some(w) && made(old(heap), final(heap), *w),
{
    let ty = new_type(heap, CelClass::Opaque);
    let idx = heap.push_host(host);
    new_opaque(heap, ty, idx)
}

/// Where interning leaves a value. A leaf that is not copied is its own, and the heap is
/// as it was; any other leaf is made as the runtime makes leaves.
pub open(crate) spec fn interned_at(before: &CelHeap, after: &CelHeap, v: Value, x: CelRef) -> bool {
    x matches Some(w) && match v {
        Value::Interned(y) => if is_copied(*y, before.copied_from()) {
            made(before, after, *w)
        } else {
            w == y && *after == *before
        },
        _ => made(before, after, *w),
    }
}

/// The leaf of a value.
pub(crate) fn make_leaf(heap: &mut CelHeap, v: &Value) -> (r: Result<CelRef, LeafError>)
    requires
        old(heap).wf(),
    ensures
        final(heap).grown_from(old(heap)),
        match r {
            Ok(x) => {
                &&& x is Some
                &&& interned_of(*v, old(heap).copied_from()) == Ok::<Val, LeafError>(ref_view(x))
                &&& unboxed_leaf(*v, x)
                &&& interned_at(old(heap), final(heap), *v, x)
                &&& lossless(*v, old(heap).copied_from()) ==> read_ref(x) == Ok::<Val, ReadError>(v@)
            },
            Err(e) => interned_of(*v, old(heap).copied_from()) == Err::<Val, LeafError>(e),
        },
    decreases v,
{
    match v {
        Value::Interned(w) => if is_forcing_old(heap) && heap.is_young(w_place(w)) {
            Ok(copy_out(heap, w))
        } else {
            Ok(Some(w.clone()))
        },
        Value::Int(i) => Ok(new_int(heap, *i)),
        Value::UInt(u) => Ok(new_uint(heap, *u)),
        Value::Float(f) => Ok(new_double(heap, *f)),
        Value::Bool(b) => Ok(new_bool(*b)),
        Value::Null => Ok(new_null()),
        Value::String(s) => Ok(new_string(heap, s)),
        Value::Bytes(b) => Ok(new_bytes(heap, b)),
        Value::List(list) => Ok(intern_list(heap, list)),
        Value::CelMap(map) => intern_map(heap, map),
        Value::Struct(s) => intern_struct(heap, s),
        Value::Opaque(o) => intern_opaque(heap, o),
        Value::Duration(d) => match d.num_nanoseconds() {
            Some(n) => Ok(new_duration(heap, n)),
            None => Err(LeafError::Duration),
        },
        Value::Timestamp(t) => match t.num_nanoseconds() {
            Some(n) => {
                let off: i32 = t.offset();
                Ok(new_timestamp(heap, n, off as i64))
            },
            None => Err(LeafError::Timestamp),
        },
    }
}

fn intern_opaque(heap: &mut CelHeap, o: &Arc<Opaque>) -> (r: Result<CelRef, LeafError>)
    requires
        old(heap).wf(),
    ensures
        final(heap).grown_from(old(heap)),
        match r {
            Ok(x) => {
                &&& x is Some
                &&& interned_of(Value::Opaque(*o), old(heap).copied_from()) == Ok::<Val, LeafError>(
                    ref_view(x),
                )
                &&& lossless(Value::Opaque(*o), old(heap).copied_from()) ==> read_ref(x) == Ok::<Val, ReadError>(
                    opaque_view(**o),
                )
            },
            Err(e) => interned_of(Value::Opaque(*o), old(heap).copied_from()) == Err::<Val, LeafError>(e),
        },
        r matches Ok(x) ==> (x matches Some(w) && made(old(heap), final(heap), *w)),
    decreases o,
{
    match &**o {
        Opaque::Optional(opt) => match &opt.value {
            None => Ok(new_optional_none(heap)),
            Some(inner) => match make_leaf(heap, inner) {
                Ok(Some(w)) => Ok(new_optional(heap, w)),
                Ok(None) => Ok(new_optional_none(heap)),
                Err(e) => Err(e),
            },
        },
        Opaque::Type(TypeValue::Core(t)) => Ok(new_type(heap, type_class(*t))),
        Opaque::Type(TypeValue::Opaque(name)) => Ok(
            intern_host(heap, Host::OpaqueType(name.clone())),
        ),
        Opaque::Type(TypeValue::Struct(name)) => Ok(
            intern_host(heap, Host::StructType(name.clone())),
        ),
        Opaque::Host(h) => Ok(
            intern_host(
                heap,
                Host::Object(HostObject { runtime_type: h.runtime_type.clone(), token: h.token }),
            ),
        ),
    }
}

/// Whether the leaf of a value is that of an integer, wherever leaves are copied from.
spec fn int_leaf(v: Value, i: i64) -> bool {
    forall|nursery: Option<Space>| #[trigger]
        interned_of(v, nursery) == Ok::<Val, LeafError>(Val::Int(i))
}

/// The integers of a list, if there are any and all elements are integers.
fn object_list_as_ints(items: &Vec<Value>) -> (r: Option<Vec<i64>>)
    ensures
        match r {
            Some(ints) => ints@.len() == items@.len() && forall|i: int|
                0 <= i < items@.len() ==> (#[trigger] items@[i])@ == Val::Int(ints@[i])
                    && int_leaf(items@[i], ints@[i]),
            None => items@.len() == 0 || exists|i: int|
                0 <= i < items@.len() && !((#[trigger] items@[i])@ is Int),
        },
        r is Some ==> items@.len() > 0,
{
    if items.len() == 0 {
        return None;
    }
    let mut ints: Vec<i64> = Vec::new();
    let mut i: usize = 0;
    while i < items.len()
        invariant
            i <= items@.len(),
            ints@.len() == i,
            forall|j: int|
                0 <= j < i ==> (#[trigger] items@[j])@ == Val::Int(ints@[j]) && int_leaf(
                    items@[j],
                    ints@[j],
                ),
        decreases items@.len() - i,
    {
        match &items[i] {
            Value::Int(v) => ints.push(*v),
            Value::Interned(w) => match &**w {
                W_Root::Int(o) => ints.push(o.intval),
                _ => {
                    assert(!(items@[i as int]@ is Int));
                    return None;
                },
            },
            _ => {
                assert(!(items@[i as int]@ is Int));
                return None;
            },
        }
        i = i + 1;
    }
    Some(ints)
}

/// Whether the leaf of a list holds unboxed integers: the list does, or it is all of a
/// buffer of values that has elements, integers alone.
pub open spec fn unboxes(l: ListRef) -> bool {
    l.holds_ints() || {
        &&& l.buffer() is Object
        &&& l.offset() == 0
        &&& l@.len() == storage_view(l.buffer()).len()
        &&& l@.len() > 0
        &&& all_ints(l@)
    }
}

/// Whether a value's leaf is unboxed exactly when the value is a list that unboxes.
pub open(crate) spec fn unboxed_leaf(v: Value, x: CelRef) -> bool {
    v matches Value::List(l) ==> (x matches Some(w) && holds_ints(*w) == unboxes(l))
}

/// The leaf of a list.
fn intern_list(heap: &mut CelHeap, list: &ListRef) -> (r: CelRef)
    requires
        old(heap).wf(),
    ensures
        final(heap).grown_from(old(heap)),
        r is Some,
        ref_view(r) == Val::List(interned_list(*list, old(heap).copied_from())),
        unboxed_leaf(Value::List(*list), r),
        lossless(Value::List(*list), old(heap).copied_from()) ==> read_ref(r) == Ok::<
            Val,
            ReadError,
        >(Val::List(list@)),
        r matches Some(w) && made(old(heap), final(heap), *w),
    decreases list,
{
    proof {
        use_type_invariant(list);
    }
    match &*list.buf {
        ListStorage::Ints(values) => {
            let mut ints: Vec<i64> = Vec::new();
            let mut i: usize = 0;
            while i < list.len
                invariant
                    i <= list.len,
                    list.start + list.len <= values@.len(),
                    list.start + list.len <= usize::MAX,
                    ints@ == values@.subrange(list.start as int, list.start + i),
                decreases list.len - i,
            {
                ints.push(values[list.start + i]);
                assert(ints@ =~= values@.subrange(list.start as int, list.start + i + 1));
                i = i + 1;
            }
            assert(ints_view(ints@) =~= list@);
            new_list_ints(heap, ints)
        },
        ListStorage::Object(items) => {
            if list.start == 0 && list.len == items.len() {
                intern_object_list(heap, list, items)
            } else {
                intern_window(heap, list)
            }
        },
        _ => intern_window(heap, list),
    }
}

/// The leaf of a list that is hosted as it is.
fn intern_window(heap: &mut CelHeap, list: &ListRef) -> (r: CelRef)
    requires
        old(heap).wf(),
    ensures
        final(heap).grown_from(old(heap)),
        r matches Some(w) && !holds_ints(*w),
        ref_view(r) == Val::List(list@),
        read_ref(r) == Ok::<Val, ReadError>(Val::List(list@)),
        r matches Some(w) && made(old(heap), final(heap), *w),
{
    let n: usize = list.len();
    let host = intern_host(heap, Host::List(list.clone()));
    assert(hosted_list(host) == list@);
    let r = new_list_window(heap, host, 0, n);
    assert(list@.subrange(0, n as int) =~= list@);
    r
}

proof fn lemma_unboxes(list: &ListRef, items: Seq<Value>)
    requires
        *list.buf matches ListStorage::Object(v) && v@ == items,
        list.start == 0,
        list.len == items.len(),
    ensures
        unboxes(*list) == (items.len() > 0 && forall|i: int|
            0 <= i < items.len() ==> (#[trigger] items[i])@ is Int),
{
    assert(list@ =~= values_view(items));
    assert forall|i: int| 0 <= i < items.len() implies list@[i] == (#[trigger] items[i])@ by {}
    if unboxes(*list) {
        assert forall|i: int| 0 <= i < items.len() implies (#[trigger] items[i])@ is Int by {
            assert(list@[i] is Int);
        }
    }
}

/// The leaf of a list that is all of a buffer of values.
fn intern_object_list(heap: &mut CelHeap, list: &ListRef, items: &Vec<Value>) -> (r: CelRef)
    requires
        old(heap).wf(),
        *list.buf == ListStorage::Object(*items),
        list.start == 0,
        list.len == items@.len(),
    ensures
        final(heap).grown_from(old(heap)),
        r is Some,
        ref_view(r) == Val::List(interned_list(*list, old(heap).copied_from())),
        unboxed_leaf(Value::List(*list), r),
        lossless(Value::List(*list), old(heap).copied_from()) ==> read_ref(r) == Ok::<
            Val,
            ReadError,
        >(Val::List(list@)),
        r matches Some(w) && made(old(heap), final(heap), *w),
    decreases items, 2nat,
{
    proof {
        lemma_unboxes(list, items@);
    }
    if let Some(ints) = object_list_as_ints(items) {
        assert(ints_view(ints@) =~= interned_list(*list, old(heap).copied_from()));
        assert(ints_view(ints@) =~= list@);
        return new_list_ints(heap, ints);
    }
    intern_boxed_list(heap, list, items)
}

/// The leaves of values, in order, and null for a value that has none.
fn boxed_refs(heap: &mut CelHeap, items: &Vec<Value>) -> (r: Vec<CelRef>)
    requires
        old(heap).wf(),
    ensures
        final(heap).grown_from(old(heap)),
        r@.len() == items@.len(),
        forall|j: int|
            0 <= j < items@.len() ==> ref_view(#[trigger] r@[j]) == interned_or_null(
                items@[j],
                old(heap).copied_from(),
            ),
        forall|j: int|
            0 <= j < items@.len() && interned_of(items@[j], old(heap).copied_from()) is Ok
                && lossless(items@[j], old(heap).copied_from()) ==> read_ref(#[trigger] r@[j])
                == Ok::<Val, ReadError>(items@[j]@),
    decreases items, 0nat,
{
    let mut refs: Vec<CelRef> = Vec::new();
    let mut i: usize = 0;
    while i < items.len()
        invariant
            heap.grown_from(old(heap)),
            i <= items@.len(),
            refs@.len() == i,
            forall|j: int|
                0 <= j < i ==> ref_view(#[trigger] refs@[j]) == interned_or_null(
                    items@[j],
                    old(heap).copied_from(),
                ),
            forall|j: int|
                0 <= j < i && interned_of(items@[j], old(heap).copied_from()) is Ok && lossless(
                    items@[j],
                    old(heap).copied_from(),
                ) ==> read_ref(#[trigger] refs@[j]) == Ok::<Val, ReadError>(items@[j]@),
        decreases items@.len() - i,
    {
        let x = match make_leaf(heap, &items[i]) {
            Ok(x) => x,
            Err(_) => new_null(),
        };
        refs.push(x);
        i = i + 1;
    }
    refs
}

/// The leaf of a list that is all of a buffer of values, boxed.
fn intern_boxed_list(heap: &mut CelHeap, list: &ListRef, items: &Vec<Value>) -> (r: CelRef)
    requires
        old(heap).wf(),
        *list.buf == ListStorage::Object(*items),
        list.start == 0,
        list.len == items@.len(),
    ensures
        final(heap).grown_from(old(heap)),
        r matches Some(w) && !holds_ints(*w),
        ref_view(r) == Val::List(interned_list(*list, old(heap).copied_from())),
        lossless(Value::List(*list), old(heap).copied_from()) ==> read_ref(r) == Ok::<
            Val,
            ReadError,
        >(Val::List(list@)),
        r matches Some(w) && made(old(heap), final(heap), *w),
    decreases items, 1nat,
{
    let refs = boxed_refs(heap, items);
    let r = new_list(heap, &refs);
    assert(refs_view(refs@) =~= interned_list(*list, old(heap).copied_from()));
    proof {
        if lossless(Value::List(*list), old(heap).copied_from()) {
            let vals = values_view(items@);
            assert(list@ =~= vals);
            lemma_read_refs_all(refs@, vals, refs@.len());
            assert(vals.take(refs@.len() as int) =~= vals);
        }
    }
    r
}

/// The leaf of a map.
fn intern_map(heap: &mut CelHeap, map: &CelMap) -> (r: Result<CelRef, LeafError>)
    requires
        old(heap).wf(),
    ensures
        final(heap).grown_from(old(heap)),
        match r {
            Ok(x) => {
                &&& x is Some
                &&& interned_of(Value::CelMap(*map), old(heap).copied_from()) == Ok::<Val, LeafError>(
                    ref_view(x),
                )
                &&& lossless(Value::CelMap(*map), old(heap).copied_from()) ==> read_ref(x) == Ok::<Val, ReadError>(
                    Val::CelMap(map@),
                )
            },
            Err(e) => interned_of(Value::CelMap(*map), old(heap).copied_from()) == Err::<Val, LeafError>(e),
        },
        r matches Ok(x) ==> (x matches Some(w) && made(old(heap), final(heap), *w)),
    decreases map,
{
    match &map.storage {
        MapStorage::Object(t) => intern_table(heap, t),
        MapStorage::Entries(e) => intern_table(heap, &e.entries),
        MapStorage::Record { .. } => {
            let n: usize = map.len();
            let host = intern_host(heap, Host::CelMap(map.clone()));
            assert(hosted_map(host) == map@);
            Ok(new_map_record(heap, host, n))
        },
    }
}

proof fn lemma_interned_pairs_stuck(
    pairs: Seq<(Key, Value)>,
    n: nat,
    m: nat,
    nursery: Option<Space>,
)
    requires
        n <= m <= pairs.len(),
        interned_pairs(pairs, n, nursery) is Err,
    ensures
        interned_pairs(pairs, m, nursery) == interned_pairs(pairs, n, nursery),
    decreases m,
{
    if n < m {
        lemma_interned_pairs_stuck(pairs, n, (m - 1) as nat, nursery);
    }
}

proof fn lemma_interned_fields_stuck(
    fields: Seq<(String, Value)>,
    n: nat,
    m: nat,
    nursery: Option<Space>,
)
    requires
        n <= m <= fields.len(),
        interned_fields(fields, n, nursery) is Err,
    ensures
        interned_fields(fields, m, nursery) == interned_fields(fields, n, nursery),
    decreases m,
{
    if n < m {
        lemma_interned_fields_stuck(fields, n, (m - 1) as nat, nursery);
    }
}

/// The leaf of a table.
fn intern_table(heap: &mut CelHeap, t: &Table) -> (r: Result<CelRef, LeafError>)
    requires
        old(heap).wf(),
    ensures
        final(heap).grown_from(old(heap)),
        match r {
            Ok(x) => {
                &&& x is Some
                &&& entries_result(interned_pairs(t.pairs@, t.pairs@.len(), old(heap).copied_from())) == Ok::<
                    Val,
                    LeafError,
                >(ref_view(x))
                &&& (forall|i: int|
                    0 <= i < t.pairs@.len() ==> lossless(
                        (#[trigger] t.pairs@[i]).1,
                        old(heap).copied_from(),
                    ))
                    ==> read_ref(x) == Ok::<Val, ReadError>(Val::CelMap(t@))
            },
            Err(e) => interned_pairs(t.pairs@, t.pairs@.len(), old(heap).copied_from()) == Err::<
                Seq<(Val, Val)>,
                LeafError,
            >(e),
        },
        r matches Ok(x) ==> (x matches Some(w) && made(old(heap), final(heap), *w)),
    decreases t,
{
    proof {
        use_type_invariant(t);
    }
    let ghost keeps = forall|i: int|
        0 <= i < t.pairs@.len() ==> lossless((#[trigger] t.pairs@[i]).1, old(heap).copied_from());
    let mut pairs: Vec<(CelRef, CelRef)> = Vec::new();
    let mut i: usize = 0;
    assert(ref_pairs_view(pairs@) =~= Seq::<(Val, Val)>::empty());
    while i < t.pairs.len()
        invariant
            heap.grown_from(old(heap)),
            i <= t.pairs@.len(),
            pairs@.len() == i,
            interned_pairs(t.pairs@, i as nat, old(heap).copied_from()) == Ok::<Seq<(Val, Val)>, LeafError>(
                ref_pairs_view(pairs@),
            ),
            keeps == (forall|i: int|
                0 <= i < t.pairs@.len() ==> lossless((#[trigger] t.pairs@[i]).1, old(heap).copied_from())),
            keeps ==> forall|j: int|
                0 <= j < i ==> reads_as(
                    #[trigger] pairs@[j],
                    (t.pairs@[j].0@, t.pairs@[j].1@),
                    false,
                ),
        decreases t.pairs@.len() - i,
    {
        let ghost prev = ref_pairs_view(pairs@);
        let k = key_to_ref(heap, &t.pairs[i].0);
        match make_leaf(heap, &t.pairs[i].1) {
            Ok(x) => {
                proof {
                    key_is_key(t.pairs@[i as int].0);
                    if keeps {
                        assert(lossless(t.pairs@[i as int].1, old(heap).copied_from()));
                    }
                }
                pairs.push((k, x));
                assert(ref_pairs_view(pairs@) =~= prev.push(
                    (t.pairs@[i as int].0@, ref_view(x)),
                ));
            },
            Err(e) => {
                proof {
                    lemma_interned_pairs_stuck(
                        t.pairs@,
                        (i + 1) as nat,
                        t.pairs@.len(),
                        old(heap).copied_from(),
                    );
                }
                return Err(e);
            },
        }
        i = i + 1;
    }
    let r = new_map(heap, &pairs);
    proof {
        if keeps {
            let entries = t@;
            lemma_read_pairs_all(pairs@, entries, pairs@.len(), false);
            assert(entries.take(pairs@.len() as int) =~= entries);
            lemma_insert_all_distinct(entries);
        }
    }
    Ok(r)
}

/// The leaf of a struct.
fn intern_struct(heap: &mut CelHeap, s: &CelStruct) -> (r: Result<CelRef, LeafError>)
    requires
        old(heap).wf(),
    ensures
        final(heap).grown_from(old(heap)),
        match r {
            Ok(x) => {
                &&& x is Some
                &&& match interned_fields(s.fields@, s.fields@.len(), old(heap).copied_from()) {
                    Ok(fields) => ref_view(x) == Val::Struct(s.name@, fields),
                    Err(_) => false,
                }
                &&& (forall|i: int|
                    0 <= i < s.fields@.len() ==> lossless(
                        (#[trigger] s.fields@[i]).1,
                        old(heap).copied_from(),
                    ))
                    ==> read_ref(x) == Ok::<Val, ReadError>(struct_view(*s))
            },
            Err(e) => interned_fields(s.fields@, s.fields@.len(), old(heap).copied_from()) == Err::<
                Seq<(Val, Val)>,
                LeafError,
            >(e),
        },
        r matches Ok(x) ==> (x matches Some(w) && made(old(heap), final(heap), *w)),
    decreases s,
{
    proof {
        use_type_invariant(s);
    }
    let ghost keeps = forall|i: int|
        0 <= i < s.fields@.len() ==> lossless((#[trigger] s.fields@[i]).1, old(heap).copied_from());
    let name = Arc::new(s.name.clone());
    let _leaf = new_string(heap, &name);
    let mut pairs: Vec<(CelRef, CelRef)> = Vec::new();
    let mut i: usize = 0;
    assert(ref_pairs_view(pairs@) =~= Seq::<(Val, Val)>::empty());
    while i < s.fields.len()
        invariant
            heap.grown_from(old(heap)),
            i <= s.fields@.len(),
            pairs@.len() == i,
            interned_fields(s.fields@, i as nat, old(heap).copied_from()) == Ok::<Seq<(Val, Val)>, LeafError>(
                ref_pairs_view(pairs@),
            ),
            keeps == (forall|i: int|
                0 <= i < s.fields@.len() ==> lossless((#[trigger] s.fields@[i]).1, old(heap).copied_from())),
            keeps ==> forall|j: int|
                0 <= j < i ==> reads_as(
                    #[trigger] pairs@[j],
                    (Val::Str(s.fields@[j].0@), s.fields@[j].1@),
                    true,
                ),
        decreases s.fields@.len() - i,
    {
        let ghost prev = ref_pairs_view(pairs@);
        let fname = Arc::new(s.fields[i].0.clone());
        let k = new_string(heap, &fname);
        match make_leaf(heap, &s.fields[i].1) {
            Ok(x) => {
                proof {
                    if keeps {
                        assert(lossless(s.fields@[i as int].1, old(heap).copied_from()));
                    }
                }
                pairs.push((k, x));
                assert(ref_pairs_view(pairs@) =~= prev.push(
                    (Val::Str(s.fields@[i as int].0@), ref_view(x)),
                ));
            },
            Err(e) => {
                proof {
                    lemma_interned_fields_stuck(
                        s.fields@,
                        (i + 1) as nat,
                        s.fields@.len(),
                        old(heap).copied_from(),
                    );
                }
                return Err(e);
            },
        }
        i = i + 1;
    }
    let r = new_struct(heap, name, &pairs);
    proof {
        if keeps {
            let entries = fields_view(s.fields@);
            lemma_read_pairs_all(pairs@, entries, pairs@.len(), true);
            assert(entries.take(pairs@.len() as int) =~= entries);
            assert(distinct_keys(entries)) by {
                assert forall|i: int, j: int|
                    0 <= i < entries.len() && 0 <= j < entries.len() && (#[trigger] entries[i]).0
                        == (#[trigger] entries[j]).0 implies i == j by {
                    assert(s.fields@[i].0@ == s.fields@[j].0@);
                }
            }
            lemma_insert_all_distinct(entries);
        }
    }
    Ok(r)
}

/// Allocate the leaf of a value.
pub fn value_to_ref(heap: &mut CelHeap, v: &Value) -> (r: Result<CelRef, ConvertError>)
    requires
        old(heap).wf(),
    ensures
        final(heap).grown_from(old(heap)),
        match r {
            Ok(x) => {
                &&& x is Some
                &&& interned_of(*v, old(heap).copied_from()) == Ok::<Val, LeafError>(ref_view(x))
                &&& unboxed_leaf(*v, x)
                &&& interned_at(old(heap), final(heap), *v, x)
                &&& lossless(*v, old(heap).copied_from()) ==> read_ref(x) == Ok::<Val, ReadError>(v@)
            },
            Err(c) => interned_of(*v, old(heap).copied_from()) matches Err(e) && leaf_reported(e, c),
        },
{
    match make_leaf(heap, v) {
        Ok(x) => Ok(x),
        Err(LeafError::Duration) => Err(ConvertError::Unsupported("duration")),
        Err(LeafError::Timestamp) => Err(ConvertError::Unsupported("timestamp")),
    }
}

/// The leaf of a value, if it has one.
pub fn intern_leaf(heap: &mut CelHeap, v: &Value) -> (r: Option<CelRef>)
    requires
        old(heap).wf(),
    ensures
        final(heap).grown_from(old(heap)),
        match r {
            Some(x) => {
                &&& x is Some
                &&& interned_of(*v, old(heap).copied_from()) == Ok::<Val, LeafError>(ref_view(x))
                &&& unboxed_leaf(*v, x)
                &&& interned_at(old(heap), final(heap), *v, x)
                &&& lossless(*v, old(heap).copied_from()) ==> read_ref(x) == Ok::<Val, ReadError>(v@)
            },
            None => interned_of(*v, old(heap).copied_from()) is Err,
        },
{
    match make_leaf(heap, v) {
        Ok(x) => Some(x),
        Err(_) => None,
    }
}

/// The result of an evaluation, safe to keep: a value in the nursery is handed out
/// in public form, any other as it is.
pub fn promote_eval_result(heap: &CelHeap, v: Value) -> (r: Value)
    ensures
        r@ == v@,
        match v {
            Value::Interned(w) => {
                let at = place_of(*w);
                if at is Young && heap.live(at) {
                    !(r is Interned)
                } else {
                    r == v
                }
            },
            _ => r == v,
        },
{
    match v {
        Value::Interned(w) => if heap.is_young(w_place(&w)) {
            Value::Interned(w).unpack()
        } else {
            Value::Interned(w)
        },
        other => other,
    }
}

} // verus!
