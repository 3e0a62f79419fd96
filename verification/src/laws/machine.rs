//! What the runtime's functions make of leaves.

use crate::key::Key;
use crate::laws::members::has_key;
use crate::laws::operators::{computes, fits_int, fits_uint, size};
use crate::laws::ordering::{amount, measure_of, values_are_ordered_by_their_measure};
use crate::laws::sameness::{equal_values_are_of_one_sort, sort_of};
use crate::map::lemma_position;
use crate::model::{leaf_eq, position, BinOp, CoreType, ReadError, TypeV, Val};
use crate::runtime::binop::{
    cel_add, cel_compare, cel_div, cel_equals, cel_greater, cel_greater_equals, cel_less,
    cel_less_equals, cel_mul, cel_negate, cel_not_equals, cel_rem, cel_sub, list_contains,
    map_contains_key, reverse_code, values_equal, w_bytes_add, w_string_add, LeafOut,
};
use crate::runtime::convert::{
    intern_leaf, interned_of, key_to_ref, lossless, promote_eval_result, ref_to_key, ref_to_value,
    type_class, type_from_class, value_to_ref, ConvertError,
};
use crate::runtime::error::{
    clear_error, has_error, raise, take_error, CelErrCode, CelError, ErrorSlot,
};
use crate::runtime::heap::CelHeap;

use crate::runtime::object::{
    column_ints, is_bool_leaf, list_get, list_int_at, list_ints_slice, list_leaf_view, list_len,
    map_len, map_lookup_string, new_bool, new_bytes, new_double, new_duration, new_int,
    new_int_column, new_list, new_list_ints, new_map, new_null, new_optional, new_optional_none,
    new_string, new_struct, new_timestamp, new_type, new_uint, read_ref, read_root, ref_pairs_view,
    ref_view, root_view, same_object, string_as_str, string_byte_len, struct_lookup_field, w_kind,
    w_type, CelClass, CelKind, CelRef, W_BytesObject, W_ListObject, W_MapObject, W_Root,
    W_StringObject, W_StructObject,
};
use crate::value::{TypeValue, Value};
use std::sync::Arc;
use vstd::prelude::*;
use vstd::utf8::encode_utf8;

verus! {

/// What a leaf is.
spec fn seen(w: Arc<W_Root>) -> Val {
    root_view(*w)
}

/// Whether reading a reference back gives this value.
pub open(crate) spec fn reads_as(r: CelRef, v: Val) -> bool {
    read_ref(r) == Ok::<Val, ReadError>(v)
}

/// A leaf of one part is read back as what it was made of.
pub proof fn simple_leaves_are_read_back(
    h1: &mut CelHeap,
    h2: &mut CelHeap,
    h3: &mut CelHeap,
    h4: &mut CelHeap,
    h5: &mut CelHeap,
    h6: &mut CelHeap,
    i: i64,
    u: u64,
    d: u64,
    b: bool,
    span: i64,
    s: Arc<String>,
    bytes: Arc<Vec<u8>>,
    ri: CelRef,
    ru: CelRef,
    rd: CelRef,
    rb: CelRef,
    rn: CelRef,
    rs: CelRef,
    rt: CelRef,
    rx: CelRef,
)
    requires
        call_ensures(new_int, (h1, i), ri),
        call_ensures(new_uint, (h2, u), ru),
        call_ensures(new_double, (h3, d), rd),
        call_ensures(new_bool, (b,), rb),
        call_ensures(new_null, (), rn),
        call_ensures(new_duration, (h4, span), rs),
        call_ensures(new_string, (h5, &s), rt),
        call_ensures(new_bytes, (h6, &bytes), rx),
    ensures
        reads_as(ri, Val::Int(i)),
        reads_as(ru, Val::UInt(u)),
        reads_as(rd, Val::Double(d)),
        reads_as(rb, Val::Bool(b)),
        reads_as(rn, Val::Null),
        reads_as(rs, Val::Duration(span as int)),
        reads_as(rt, Val::Str(s@)),
        reads_as(rx, Val::Bytes(bytes@)),
{
}

/// A timestamp's leaf is read back with its nanoseconds and its offset, in no leap second.
pub proof fn timestamp_leaves_are_read_back(heap: &mut CelHeap, n: i64, off: i64, r: CelRef)
    requires
        call_ensures(new_timestamp, (heap, n, off), r),
        size(off as int) < 86_400,
    ensures
        read_ref(r) matches Ok(Val::Timestamp(t)) && t.nanos == n && t.offset == off && !t.leap,
{
}

/// An optional's leaf holds the leaf that it was made of, and a type's leaf is read back as
/// the type of its class.
pub proof fn optional_and_type_leaves_are_read_back(
    h1: &mut CelHeap,
    h2: &mut CelHeap,
    h3: &mut CelHeap,
    w: Arc<W_Root>,
    t: CoreType,
    class: CelClass,
    o: CelRef,
    e: CelRef,
    ty: CelRef,
)
    requires
        call_ensures(new_optional, (h1, w), o),
        call_ensures(new_optional_none, (h2,), e),
        call_ensures(type_class, (t,), class),
        call_ensures(new_type, (h3, class), ty),
    ensures
        read_root(*w) matches Ok(v) ==> reads_as(o, Val::Optional(Some(Box::new(v)))),
        reads_as(e, Val::Optional(None)),
        reads_as(ty, Val::Type(TypeV::Core(t))),
{
}

/// What a reference refers to is read back as a public value, and fails to be where it
/// cannot be read. A key's leaf is read back as the key.
pub proof fn references_are_read_back(
    heap: &mut CelHeap,
    r: CelRef,
    v: Result<Value, ConvertError>,
    k: Key,
    kr: CelRef,
    back: Result<Key, ConvertError>,
)
    requires
        call_ensures(ref_to_value, (&r,), v),
        call_ensures(key_to_ref, (heap, &k), kr),
        call_ensures(ref_to_key, (&kr,), back),
    ensures
        v matches Ok(x) ==> reads_as(r, x@) && !(x is Interned),
        v is Err <==> read_ref(r) is Err,
        reads_as(kr, k@),
        back matches Ok(x) && x@ == k@,
{
}

/// Whether a value in public form has nothing in it that a leaf cannot keep: a duration or
/// a timestamp whose nanoseconds do not fit 64 bits, a leap second, or a leaf.
pub open(crate) spec fn is_plain(v: Value) -> bool
    decreases v,
{
    match v {
        Value::Null | Value::Bool(_) | Value::Int(_) | Value::UInt(_) | Value::Float(_) => true,
        Value::String(_) | Value::Bytes(_) => true,
        Value::Duration(d) => i64::MIN <= d@ <= i64::MAX,
        Value::Timestamp(t) => i64::MIN <= t@.nanos <= i64::MAX && !t@.leap,
        Value::List(l) => match *l.buf {
            crate::list::ListStorage::Object(items) => l.start == 0 && l.len == items@.len()
                && forall|i: int| 0 <= i < items@.len() ==> is_plain(#[trigger] items@[i]),
            _ => true,
        },
        Value::CelMap(m) => match m.storage {
            crate::map::MapStorage::Object(t) => forall|i: int|
                0 <= i < t.pairs@.len() ==> is_plain((#[trigger] t.pairs@[i]).1),
            crate::map::MapStorage::Entries(e) => forall|i: int|
                0 <= i < e.entries.pairs@.len() ==> is_plain((#[trigger] e.entries.pairs@[i]).1),
            crate::map::MapStorage::Record { .. } => true,
        },
        Value::Opaque(o) => match *o {
            crate::value::Opaque::Optional(opt) => match opt.value {
                None => true,
                Some(x) => is_plain(x),
            },
            _ => true,
        },
        Value::Struct(s) => forall|i: int|
            0 <= i < s.fields@.len() ==> is_plain((#[trigger] s.fields@[i]).1),
        Value::Interned(_) => false,
    }
}

proof fn lemma_pairs_are_plain(
    pairs: Seq<(Key, Value)>,
    n: nat,
    nursery: Option<crate::runtime::heap::Space>,
)
    requires
        n <= pairs.len(),
        forall|i: int| 0 <= i < pairs.len() ==> is_plain((#[trigger] pairs[i]).1),
    ensures
        crate::runtime::convert::interned_pairs(pairs, n, nursery) is Ok,
    decreases pairs, n,
{
    if n > 0 {
        lemma_pairs_are_plain(pairs, (n - 1) as nat, nursery);
        assert(decreases_to!(pairs => pairs[n - 1]));
        assert(decreases_to!(pairs[n - 1] => pairs[n - 1].1));
        lemma_plain(pairs[n - 1].1, nursery);
    }
}

proof fn lemma_fields_are_plain(
    fields: Seq<(String, Value)>,
    n: nat,
    nursery: Option<crate::runtime::heap::Space>,
)
    requires
        n <= fields.len(),
        forall|i: int| 0 <= i < fields.len() ==> is_plain((#[trigger] fields[i]).1),
    ensures
        crate::runtime::convert::interned_fields(fields, n, nursery) is Ok,
    decreases fields, n,
{
    if n > 0 {
        lemma_fields_are_plain(fields, (n - 1) as nat, nursery);
        assert(decreases_to!(fields => fields[n - 1]));
        assert(decreases_to!(fields[n - 1] => fields[n - 1].1));
        lemma_plain(fields[n - 1].1, nursery);
    }
}

proof fn lemma_table_is_plain(
    pairs: Seq<(Key, Value)>,
    nursery: Option<crate::runtime::heap::Space>,
)
    requires
        forall|i: int| 0 <= i < pairs.len() ==> is_plain((#[trigger] pairs[i]).1),
    ensures
        forall|i: int| 0 <= i < pairs.len() ==> lossless((#[trigger] pairs[i]).1, nursery),
    decreases pairs, pairs.len() + 1,
{
    assert forall|i: int| 0 <= i < pairs.len() implies lossless(
        (#[trigger] pairs[i]).1,
        nursery,
    ) by {
        assert(decreases_to!(pairs => pairs[i]));
        assert(decreases_to!(pairs[i] => pairs[i].1));
        lemma_plain(pairs[i].1, nursery);
    }
}

proof fn lemma_plain(v: Value, nursery: Option<crate::runtime::heap::Space>)
    requires
        is_plain(v),
    ensures
        interned_of(v, nursery) is Ok,
        lossless(v, nursery),
    decreases v,
{
    match v {
        Value::List(l) => match *l.buf {
            crate::list::ListStorage::Object(items) => {
                assert forall|i: int| 0 <= i < items@.len() implies interned_of(
                    #[trigger] items@[i],
                    nursery,
                ) is Ok && lossless(items@[i], nursery) by {
                    assert(decreases_to!(v => l.buf));
                    assert(decreases_to!(l.buf => items));
                    assert(decreases_to!(items => items@[i]));
                    lemma_plain(items@[i], nursery);
                }
            },
            _ => {},
        },
        Value::CelMap(m) => match m.storage {
            crate::map::MapStorage::Object(t) => {
                assert(decreases_to!(v => m.storage));
                assert(decreases_to!(m.storage => t.pairs));
                assert(decreases_to!(t.pairs => t.pairs@));
                lemma_pairs_are_plain(t.pairs@, t.pairs@.len(), nursery);
                lemma_table_is_plain(t.pairs@, nursery);
            },
            crate::map::MapStorage::Entries(e) => {
                assert(decreases_to!(v => m.storage));
                assert(decreases_to!(m.storage => e.entries));
                assert(decreases_to!(e.entries => e.entries.pairs));
                assert(decreases_to!(e.entries.pairs => e.entries.pairs@));
                lemma_pairs_are_plain(e.entries.pairs@, e.entries.pairs@.len(), nursery);
                lemma_table_is_plain(e.entries.pairs@, nursery);
            },
            _ => {},
        },
        Value::Opaque(o) => match *o {
            crate::value::Opaque::Optional(opt) => match opt.value {
                Some(x) => {
                    assert(decreases_to!(v => o));
                    assert(decreases_to!(o => opt));
                    assert(decreases_to!(opt => x));
                    lemma_plain(x, nursery);
                },
                None => {},
            },
            _ => {},
        },
        Value::Struct(s) => {
            assert(decreases_to!(v => s));
            assert(decreases_to!(s => s.fields));
            assert(decreases_to!(s.fields => s.fields@));
            lemma_fields_are_plain(s.fields@, s.fields@.len(), nursery);
            assert forall|i: int| 0 <= i < s.fields@.len() implies lossless(
                (#[trigger] s.fields@[i]).1,
                nursery,
            ) by {
                assert(decreases_to!(s.fields@ => s.fields@[i]));
                assert(decreases_to!(s.fields@[i] => s.fields@[i].1));
                lemma_plain(s.fields@[i].1, nursery);
            }
        },
        _ => {},
    }
}

/// What a value becomes as a leaf is read back as that value.
pub proof fn what_is_interned_is_read_back(
    h1: &mut CelHeap,
    h2: &mut CelHeap,
    v: Value,
    r: Option<CelRef>,
    s: Result<CelRef, ConvertError>,
)
    requires
        is_plain(v),
        call_ensures(intern_leaf, (h1, &v), r),
        call_ensures(value_to_ref, (h2, &v), s),
    ensures
        r matches Some(x) && reads_as(x, v@),
        s matches Ok(x) && reads_as(x, v@),
{
    lemma_plain(v, old(h1).copied_from());
    lemma_plain(v, old(h2).copied_from());
}

/// A value whose nanoseconds do not fit 64 bits has no leaf.
pub proof fn what_does_not_fit_has_no_leaf(
    h1: &mut CelHeap,
    h2: &mut CelHeap,
    v: Value,
    r: Option<CelRef>,
    s: Result<CelRef, ConvertError>,
)
    requires
        v is Duration || v is Timestamp,
        call_ensures(intern_leaf, (h1, &v), r),
        call_ensures(value_to_ref, (h2, &v), s),
    ensures
        r is Some <==> i64::MIN <= amount(v@) <= i64::MAX,
        s is Ok <==> r is Some,
        s matches Err(ConvertError::Unsupported(what)) ==> what@ == if v is Duration {
            "duration"@
        } else {
            "timestamp"@
        },
{
}

/// The result of an evaluation stands for what it stood for, and what the nursery holds is
/// handed out in public form.
pub proof fn results_are_promoted(heap: CelHeap, v: Value, r: Value)
    requires
        call_ensures(promote_eval_result, (&heap, v), r),
    ensures
        r@ == v@,
        !(v is Interned) ==> r == v,
{
}

// ---------------------------------------------------------------------------
// Containers.

/// A list's leaf has the references that it was made of, as many and in order.
pub proof fn a_list_leaf_has_its_references(
    h1: &mut CelHeap,
    h2: &mut CelHeap,
    values: Vec<CelRef>,
    r: CelRef,
    l: W_ListObject,
    n: usize,
    i: i64,
    item: Option<CelRef>,
)
    requires
        call_ensures(new_list, (h1, &values), r),
        r matches Some(w) && *w == W_Root::List(l),
        call_ensures(list_len, (&l,), n),
        call_ensures(list_get, (h2, &l, i), item),
    ensures
        n == values@.len(),
        item == if 0 <= i < values@.len() {
            Some(values@[i as int])
        } else {
            None
        },
{
}

/// An unboxed list's leaf has the integers that it was made of.
pub proof fn an_int_list_leaf_has_its_integers(
    h1: &mut CelHeap,
    h2: &mut CelHeap,
    values: Vec<i64>,
    column: CelRef,
    r: CelRef,
    l: W_ListObject,
    n: usize,
    i: i64,
    item: Option<i64>,
)
    requires
        call_ensures(new_list_ints, (h1, values), r),
        call_ensures(new_int_column, (h2, values), column),
        r matches Some(w) && *w == W_Root::List(l),
        call_ensures(list_len, (&l,), n),
        call_ensures(list_int_at, (&l, i), item),
    ensures
        n == values@.len(),
        item == if 0 <= i < values@.len() {
            Some(values@[i as int])
        } else {
            None
        },
        column_ints(column) == values@,
        reads_as(r, Val::List(crate::list::ints_view(values@))),
{
    assert(list_leaf_view(l) == crate::list::ints_view(values@));
    if 0 <= i < values@.len() {
        assert(crate::list::ints_view(values@)[i as int] == Val::Int(values@[i as int]));
    }
}

/// A map's leaf has the pairs that it was made of; a string finds the value of the first
/// pair of which it is the key.
pub proof fn a_map_leaf_has_its_pairs(
    heap: &mut CelHeap,
    pairs: Vec<(CelRef, CelRef)>,
    r: CelRef,
    m: W_MapObject,
    n: usize,
    name: &str,
    found: Option<CelRef>,
    i: int,
)
    requires
        call_ensures(new_map, (heap, &pairs), r),
        r matches Some(w) && *w == W_Root::CelMap(m),
        call_ensures(map_len, (&m,), n),
        call_ensures(map_lookup_string, (&m, name), found),
    ensures
        n == pairs@.len(),
        0 <= i < pairs@.len() && ref_view(pairs@[i].0) == Val::Str(name@) && (forall|j: int|
            0 <= j < i ==> ref_view((#[trigger] pairs@[j]).0) != Val::Str(name@)) ==> (
        found matches Some(x) && ref_view(x) == ref_view(pairs@[i].1)),
        (forall|j: int| 0 <= j < pairs@.len() ==> ref_view((#[trigger] pairs@[j]).0) != Val::Str(
            name@,
        )) ==> found is None,
{
    let entries = ref_pairs_view(pairs@);
    lemma_position(entries, Val::Str(name@));
    let p = position(entries, Val::Str(name@));
    assert forall|j: int| 0 <= j < pairs@.len() implies (#[trigger] entries[j]) == (
        ref_view(pairs@[j].0),
        ref_view(pairs@[j].1),
    ) by {}
    if 0 <= i < pairs@.len() && ref_view(pairs@[i].0) == Val::Str(name@) {
        assert(entries[i].0 == Val::Str(name@));
        assert(0 <= p <= i);
    }
    if p >= 0 {
        assert(entries[p].0 == Val::Str(name@));
        assert(ref_view(pairs@[p].0) == Val::Str(name@));
    }
}

/// A struct's leaf has the fields that it was made of.
pub proof fn a_struct_leaf_has_its_fields(
    heap: &mut CelHeap,
    label: Arc<String>,
    fields: Vec<(CelRef, CelRef)>,
    r: CelRef,
    s: W_StructObject,
    name: &str,
    found: Option<CelRef>,
    i: int,
)
    requires
        call_ensures(new_struct, (heap, label, &fields), r),
        r matches Some(w) && *w == W_Root::Struct(s),
        call_ensures(struct_lookup_field, (&s, name), found),
    ensures
        root_view(W_Root::Struct(s)) matches Val::Struct(n, _) && n == label@,
        0 <= i < fields@.len() && ref_view(fields@[i].0) == Val::Str(name@) && (forall|j: int|
            0 <= j < i ==> ref_view((#[trigger] fields@[j]).0) != Val::Str(name@)) ==> (
        found matches Some(x) && ref_view(x) == ref_view(fields@[i].1)),
{
    let entries = ref_pairs_view(fields@);
    lemma_position(entries, Val::Str(name@));
    let p = position(entries, Val::Str(name@));
    assert forall|j: int| 0 <= j < fields@.len() implies (#[trigger] entries[j]) == (
        ref_view(fields@[j].0),
        ref_view(fields@[j].1),
    ) by {}
    if 0 <= i < fields@.len() && ref_view(fields@[i].0) == Val::Str(name@) {
        assert(entries[i].0 == Val::Str(name@));
        assert(0 <= p <= i);
    }
    if p >= 0 {
        assert(entries[p].0 == Val::Str(name@));
        assert(ref_view(fields@[p].0) == Val::Str(name@));
    }
}

/// A string's leaf is its text, and as long as its UTF-8; other leaves have no text. Only a
/// list that is unboxed has a slice of integers.
pub proof fn texts_and_integers_are_read_in_place(
    w: W_Root,
    text: Option<&str>,
    s: W_StringObject,
    n: i64,
    ints: Option<&[i64]>,
)
    requires
        call_ensures(string_as_str, (&w,), text),
        call_ensures(string_byte_len, (&s,), n),
        call_ensures(list_ints_slice, (&w,), ints),
    ensures
        text matches Some(t) ==> root_view(w) == Val::Str(t@),
        text is None ==> !(root_view(w) is Str),
        encode_utf8(root_view(W_Root::Str(s))->Str_0).len() <= i64::MAX ==> n == encode_utf8(
            root_view(W_Root::Str(s))->Str_0,
        ).len(),
        ints matches Some(x) ==> (root_view(w) matches Val::List(items) && items.len() == x@.len()
            && forall|i: int| 0 <= i < x@.len() ==> #[trigger] items[i] == Val::Int(x@[i])),
{
}

/// The class of a leaf is that of its value, and the family of a class is its own.
pub proof fn leaves_have_the_class_of_their_value(w: W_Root, c: CelClass, k: CelKind)
    requires
        call_ensures(w_type, (&w,), c),
        call_ensures(w_kind, (&w,), k),
    ensures
        root_view(w) is Int ==> c == CelClass::Int && k == CelKind::Int,
        root_view(w) is UInt ==> c == CelClass::UInt && k == CelKind::UInt,
        root_view(w) is Double ==> c == CelClass::Double && k == CelKind::Double,
        root_view(w) is Bool ==> c == CelClass::Bool && k == CelKind::Bool,
        root_view(w) is Str ==> c == CelClass::Str && k == CelKind::Str,
        root_view(w) is Bytes ==> c == CelClass::Bytes && k == CelKind::Bytes,
        root_view(w) is Duration ==> c == CelClass::Duration && k == CelKind::Duration,
        root_view(w) is Timestamp ==> c == CelClass::Timestamp && k == CelKind::Timestamp,
        root_view(w) is List ==> c == CelClass::List && k == CelKind::List,
        root_view(w) is CelMap ==> c == CelClass::CelMap && k == CelKind::CelMap,
        root_view(w) is Struct ==> c == CelClass::Struct && k == CelKind::Struct,
        root_view(w) is Optional ==> c == CelClass::Optional && k == CelKind::Optional,
        w is Null ==> c == CelClass::Null && k == CelKind::Null,
{
}

/// The classes that are types are named as the types are.
pub proof fn classes_have_the_names_of_their_types(
    t: CoreType,
    c: CelClass,
    name: &'static str,
    read: Result<TypeValue, ReadError>,
    ty: TypeValue,
    type_label: &str,
)
    requires
        call_ensures(type_class, (t,), c),
        call_ensures(CelClass::name, (c,), name),
        call_ensures(type_from_class, (c,), read),
        read == Ok::<TypeValue, ReadError>(ty),
        call_ensures(TypeValue::name, (&ty,), type_label),
    ensures
        ty@ == TypeV::Core(t),
        name@ == type_label@,
        match t {
            CoreType::Int => name@ == "int"@,
            CoreType::UInt => name@ == "uint"@,
            CoreType::Double => name@ == "double"@,
            CoreType::Bool => name@ == "bool"@,
            CoreType::String => name@ == "string"@,
            CoreType::Bytes => name@ == "bytes"@,
            CoreType::Null => name@ == "null_type"@,
            CoreType::List => name@ == "list"@,
            CoreType::CelMap => name@ == "map"@,
            CoreType::Type => name@ == "type"@,
            CoreType::Optional => name@ == "optional_type"@,
            CoreType::Duration => name@ == "duration"@,
            CoreType::Timestamp => name@ == "timestamp"@,
        },
{
}

// ---------------------------------------------------------------------------
// Operators.

/// Leaves are equal where the runtime has it: numbers, durations, timestamps and booleans
/// by what measures them, texts by their characters, lists element by element. The leaves
/// of the answers say so.
pub proof fn leaves_are_compared_for_equality(
    a: Arc<W_Root>,
    b: Arc<W_Root>,
    r: bool,
    eq: CelRef,
    ne: CelRef,
)
    requires
        call_ensures(values_equal, (&a, &b), r),
        call_ensures(cel_equals, (&a, &b), eq),
        call_ensures(cel_not_equals, (&a, &b), ne),
    ensures
        ({
            let (x, y) = (root_view(*a), root_view(*b));
            &&& measure_of(x) is Some && measure_of(x) == measure_of(y) ==> r == (amount(x)
                == amount(y))
            &&& x is Str && y is Str ==> r == (x->Str_0 == y->Str_0)
            &&& x is Bytes && y is Bytes ==> r == (x->Bytes_0 == y->Bytes_0)
            &&& x is List && y is List ==> (r <==> x->List_0.len() == y->List_0.len()
                && forall|i: int|
                0 <= i < x->List_0.len() ==> leaf_eq(#[trigger] x->List_0[i], y->List_0[i]))
            &&& sort_of(x) != sort_of(y) ==> !r
        }),
        is_bool_leaf(eq, r),
        is_bool_leaf(ne, !r),
{
    let (x, y) = (seen(a), seen(b));
    equal_values_are_of_one_sort(x, y);
    if measure_of(x) is Some && measure_of(x) == measure_of(y) {
        values_are_ordered_by_their_measure(x, y);
    }
}

/// What is measured is ordered by its measure on leaves too: as a code of -1, 0 or 1, and
/// by the four operators. A code reversed is that of the operands exchanged.
pub proof fn leaves_are_compared_for_order(
    s1: &mut ErrorSlot,
    s2: &mut ErrorSlot,
    s3: &mut ErrorSlot,
    s4: &mut ErrorSlot,
    a: Arc<W_Root>,
    b: Arc<W_Root>,
    code: i64,
    back: i64,
    less: CelRef,
    less_equals: CelRef,
    greater: CelRef,
    greater_equals: CelRef,
)
    requires
        call_ensures(cel_compare, (&a, &b), code),
        call_ensures(reverse_code, (code,), back),
        call_ensures(cel_less, (s1, &a, &b), less),
        call_ensures(cel_less_equals, (s2, &a, &b), less_equals),
        call_ensures(cel_greater, (s3, &a, &b), greater),
        call_ensures(cel_greater_equals, (s4, &a, &b), greater_equals),
        measure_of(root_view(*a)) is Some,
        measure_of(root_view(*a)) == measure_of(root_view(*b)),
    ensures
        ({
            let (x, y) = (amount(root_view(*a)), amount(root_view(*b)));
            &&& code == if x < y {
                -1int
            } else if x == y {
                0
            } else {
                1
            }
            &&& back == -code
            &&& is_bool_leaf(less, x < y)
            &&& is_bool_leaf(less_equals, x <= y)
            &&& is_bool_leaf(greater, x > y)
            &&& is_bool_leaf(greater_equals, x >= y)
            &&& *final(s1) == *old(s1) && *final(s2) == *old(s2)
            &&& *final(s3) == *old(s3) && *final(s4) == *old(s4)
        }),
{
    values_are_ordered_by_their_measure(seen(a), seen(b));
}

/// Whether an operator on leaves gave this value.
pub open(crate) spec fn gave(r: LeafOut, v: Val) -> bool {
    r matches LeafOut::Ref(Some(w)) && root_view(*w) == v
}

/// Whether an operator on leaves gave nothing, and an error with this code, name and
/// operands is in flight.
pub open(crate) spec fn failed(
    r: LeafOut,
    slot: ErrorSlot,
    code: CelErrCode,
    name: Seq<char>,
    a: W_Root,
    b: W_Root,
) -> bool {
    &&& r == LeafOut::Ref(None)
    &&& slot.raised matches Some(e) && e.code == code && e.op@ == name && (e.lhs matches Some(x)
        && *x == a) && (e.rhs matches Some(y) && *y == b)
}

/// Leaves of integers are added, subtracted and multiplied as numbers are; what does not
/// fit raises an overflow with both operands.
pub proof fn integer_leaves_are_computed(
    heap: &mut CelHeap,
    slot: &mut ErrorSlot,
    op: BinOp,
    a: Arc<W_Root>,
    b: Arc<W_Root>,
    r: LeafOut,
)
    requires
        match op {
            BinOp::Add => call_ensures(cel_add, (heap, slot, &a, &b), r),
            BinOp::Sub => call_ensures(cel_sub, (heap, slot, &a, &b), r),
            _ => call_ensures(cel_mul, (heap, slot, &a, &b), r),
        },
    ensures
        match (root_view(*a), root_view(*b)) {
            (Val::Int(x), Val::Int(y)) => {
                let (n, name) = match op {
                    BinOp::Add => (x + y, "add"@),
                    BinOp::Sub => (x - y, "sub"@),
                    _ => (x * y, "mul"@),
                };
                if fits_int(n) {
                    gave(r, Val::Int(n as i64))
                } else {
                    failed(r, *final(slot), CelErrCode::Overflow, name, *a, *b)
                }
            },
            (Val::UInt(x), Val::UInt(y)) => {
                let (n, name) = match op {
                    BinOp::Add => (x + y, "add"@),
                    BinOp::Sub => (x - y, "sub"@),
                    _ => (x * y, "mul"@),
                };
                if fits_uint(n) {
                    gave(r, Val::UInt(n as u64))
                } else {
                    failed(r, *final(slot), CelErrCode::Overflow, name, *a, *b)
                }
            },
            _ => true,
        },
{
}

/// Leaves of integers are divided toward zero, and nothing is divided by zero.
pub proof fn integer_leaves_are_divided(
    h1: &mut CelHeap,
    h2: &mut CelHeap,
    slot: &mut ErrorSlot,
    rslot: &mut ErrorSlot,
    a: Arc<W_Root>,
    b: Arc<W_Root>,
    q: LeafOut,
    m: LeafOut,
)
    requires
        call_ensures(cel_div, (h1, slot, &a, &b), q),
        call_ensures(cel_rem, (h2, rslot, &a, &b), m),
    ensures
        match (root_view(*a), root_view(*b)) {
            (Val::Int(x), Val::Int(y)) => {
                &&& y == 0 ==> failed(q, *final(slot), CelErrCode::DivisionByZero, "div"@, *a, *b)
                &&& y == 0 ==> failed(m, *final(rslot), CelErrCode::RemainderByZero, "rem"@, *a, *b)
                &&& y != 0 && !(x == i64::MIN && y == -1) ==> exists|k: int| #[trigger]
                    crate::laws::operators::is_quotient(x as int, y as int, k) && gave(
                        q,
                        Val::Int(k as i64),
                    ) && gave(m, Val::Int((x - k * y) as i64)) && fits_int(k) && fits_int(x - k * y)
            },
            (Val::UInt(x), Val::UInt(y)) => {
                &&& y == 0 ==> failed(q, *final(slot), CelErrCode::DivisionByZero, "div"@, *a, *b)
                &&& y == 0 ==> failed(m, *final(rslot), CelErrCode::RemainderByZero, "rem"@, *a, *b)
            },
            _ => true,
        },
{
    match (seen(a), seen(b)) {
        (Val::Int(x), Val::Int(y)) => {
            if y != 0 && !(x == i64::MIN && y == -1) {
                crate::laws::operators::lemma_quotient(x as int, y as int);
                let k = crate::model::quotient(x as int, y as int);
                if y == 1 {
                    assert(k * y == k) by (nonlinear_arith)
                        requires
                            y == 1,
                    ;
                } else if y == -1 {
                    assert(k * y == -k) by (nonlinear_arith)
                        requires
                            y == -1,
                    ;
                }
                assert(crate::laws::operators::is_quotient(x as int, y as int, k));
            }
        },
        _ => {},
    }
}

/// Leaves of texts and of byte strings are put together, the left one first, and doubles
/// are handed out with the operator. What the operator is not defined on raises.
pub proof fn other_leaves_are_computed(
    h1: &mut CelHeap,
    h2: &mut CelHeap,
    h3: &mut CelHeap,
    slot: &mut ErrorSlot,
    a: Arc<W_Root>,
    b: Arc<W_Root>,
    r: LeafOut,
    x: W_StringObject,
    y: W_StringObject,
    text: CelRef,
    p: W_BytesObject,
    q: W_BytesObject,
    bytes: CelRef,
)
    requires
        call_ensures(cel_add, (h1, slot, &a, &b), r),
        call_ensures(w_string_add, (h2, &x, &y), text),
        call_ensures(w_bytes_add, (h3, &p, &q), bytes),
    ensures
        match (root_view(*a), root_view(*b)) {
            (Val::Str(s), Val::Str(t)) => gave(r, Val::Str(s + t)),
            (Val::Bytes(s), Val::Bytes(t)) => gave(r, Val::Bytes(s + t)),
            (Val::Duration(s), Val::Duration(t)) => fits_int(s + t) ==> gave(
                r,
                Val::Duration(s + t),
            ),
            (Val::Double(s), Val::Double(t)) => r == LeafOut::Double(BinOp::Add, s, t),
            _ => true,
        },
        !computes(BinOp::Add, root_view(*a), root_view(*b)) ==> r == LeafOut::Ref(None) && (
        final(slot).raised is Some),
        ref_view(text) == Val::Str(
            root_view(W_Root::Str(x))->Str_0 + root_view(W_Root::Str(y))->Str_0,
        ),
        ref_view(bytes) == Val::Bytes(
            root_view(W_Root::Bytes(p))->Bytes_0 + root_view(W_Root::Bytes(q))->Bytes_0,
        ),
{
}

/// The opposite of a leaf.
pub proof fn leaves_are_negated(
    heap: &mut CelHeap,
    slot: &mut ErrorSlot,
    a: Arc<W_Root>,
    r: CelRef,
)
    requires
        call_ensures(cel_negate, (heap, slot, &a), r),
    ensures
        match root_view(*a) {
            Val::Int(i) => if i == i64::MIN {
                r is None && (final(slot).raised matches Some(e) && e.code == CelErrCode::Overflow)
            } else {
                ref_view(r) matches Val::Int(j) && i + j == 0
            },
            Val::Bool(b) => ref_view(r) == Val::Bool(!b),
            Val::Double(d) => ref_view(r) matches Val::Double(x) && size(x - d)
                == 0x8000_0000_0000_0000,
            Val::Duration(d) => d > i64::MIN ==> ref_view(r) == Val::Duration(-d),
            _ => r is None && (final(slot).raised matches Some(e) && e.code
                == CelErrCode::NoSuchOverload),
        },
{
}

/// A list's leaf holds what equals one of its elements, and a map's leaf holds its keys.
pub proof fn leaves_are_searched(
    w: Arc<W_Root>,
    k: Arc<W_Root>,
    listed: bool,
    keyed: bool,
)
    requires
        call_ensures(list_contains, (&w, &k), listed),
        call_ensures(map_contains_key, (&w, &k), keyed),
    ensures
        match root_view(*w) {
            Val::List(items) => listed <==> exists|i: int|
                0 <= i < items.len() && leaf_eq(#[trigger] items[i], root_view(*k)),
            _ => !listed,
        },
        match root_view(*w) {
            Val::CelMap(m) => keyed <==> has_key(m, root_view(*k)) && (root_view(*k) is Int
                || root_view(*k) is UInt || root_view(*k) is Bool || root_view(*k) is Str),
            _ => !keyed,
        },
{
    match seen(w) {
        Val::CelMap(m) => {
            lemma_position(m, seen(k));
            let p = position(m, seen(k));
            if p >= 0 {
                assert(m[p].0 == seen(k));
            }
        },
        _ => {},
    }
}

/// An error that is raised is in flight until it is taken, and is taken as it was raised.
pub proof fn a_raised_error_is_taken(
    slot: &mut ErrorSlot,
    code: CelErrCode,
    op: &'static str,
    lhs: CelRef,
    rhs: CelRef,
    r: CelRef,
    flying: bool,
    other: &mut ErrorSlot,
    taken: Option<CelError>,
    third: &mut ErrorSlot,
)
    requires
        call_ensures(raise, (slot, code, op, lhs, rhs), r),
        call_ensures(has_error, (&*final(slot),), flying),
        *old(other) == *final(slot),
        call_ensures(take_error, (other,), taken),
        call_ensures(clear_error, (third,), ()),
    ensures
        r is None,
        flying,
        taken matches Some(e) && e.code == code && e.op == op && e.lhs == lhs && e.rhs == rhs,
        final(other).raised is None,
        final(third).raised is None,
{
}

/// Two references are one object where they are at one place, or are both none.
pub proof fn objects_are_told_apart_by_their_place(a: CelRef, b: CelRef, r: bool)
    requires
        call_ensures(same_object, (&a, &b), r),
    ensures
        a == b ==> r,
        a is None != b is None ==> !r,
        a is Some && b is Some ==> r == (crate::runtime::object::place_of(*a->0)
            == crate::runtime::object::place_of(*b->0)),
{
}

/// A comparison of leaves that have no order raises under the name of its operator.
pub proof fn comparisons_raise_under_their_names(
    s1: &mut ErrorSlot,
    s2: &mut ErrorSlot,
    s3: &mut ErrorSlot,
    s4: &mut ErrorSlot,
    a: Arc<W_Root>,
    b: Arc<W_Root>,
    lt: CelRef,
    le: CelRef,
    gt: CelRef,
    ge: CelRef,
)
    requires
        call_ensures(cel_less, (s1, &a, &b), lt),
        call_ensures(cel_less_equals, (s2, &a, &b), le),
        call_ensures(cel_greater, (s3, &a, &b), gt),
        call_ensures(cel_greater_equals, (s4, &a, &b), ge),
        root_view(*a) is List || root_view(*a) is CelMap || root_view(*a) is Null || root_view(
            *a,
        ) is Optional,
    ensures
        failed(LeafOut::Ref(lt), *final(s1), CelErrCode::NoSuchOverload, "less"@, *a, *b),
        failed(LeafOut::Ref(le), *final(s2), CelErrCode::NoSuchOverload, "less_equals"@, *a, *b),
        failed(LeafOut::Ref(gt), *final(s3), CelErrCode::NoSuchOverload, "greater"@, *a, *b),
        failed(
            LeafOut::Ref(ge),
            *final(s4),
            CelErrCode::NoSuchOverload,
            "greater_equals"@,
            *a,
            *b,
        ),
{
}

/// A column of integers counts as a list; every other class is a family of its own.
pub proof fn classes_have_their_families(c: CelClass, d: CelClass, k: CelKind, m: CelKind)
    requires
        call_ensures(CelClass::kind, (c,), k),
        call_ensures(CelClass::kind, (d,), m),
    ensures
        c == CelClass::IntColumn || c == CelClass::List <==> k == CelKind::List,
        c != d && k == m ==> k == CelKind::List,
        c == CelClass::Int ==> k == CelKind::Int,
        c == CelClass::UInt ==> k == CelKind::UInt,
        c == CelClass::Double ==> k == CelKind::Double,
        c == CelClass::Bool ==> k == CelKind::Bool,
        c == CelClass::Null ==> k == CelKind::Null,
        c == CelClass::Str ==> k == CelKind::Str,
        c == CelClass::Bytes ==> k == CelKind::Bytes,
        c == CelClass::Duration ==> k == CelKind::Duration,
        c == CelClass::Timestamp ==> k == CelKind::Timestamp,
        c == CelClass::Optional ==> k == CelKind::Optional,
        c == CelClass::CelMap ==> k == CelKind::CelMap,
        c == CelClass::Struct ==> k == CelKind::Struct,
        c == CelClass::Type ==> k == CelKind::Type,
        c == CelClass::Frame ==> k == CelKind::Frame,
        c == CelClass::Opaque ==> k == CelKind::Opaque,
{
}

} // verus!
