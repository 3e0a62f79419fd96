//! What plain values, requests, replies and stores are taken for.

use crate::access::value_contains;
use crate::ast::{Expr, Expression, MapExpr, StructExpr};
use crate::column::{RecordSchema, StrBank, ValueColumn};
use crate::compare::opaque_eq;
use crate::context::ScopeV;
use crate::error::ExecutionError;
use crate::key::Key;
use crate::laws::functions::is_public;
use crate::list::{values_view, ListRef, ListStorage};
use crate::map::{lemma_insert_all_distinct, CelMap, MapStorage, Table};
use crate::model::{BinOp, ErrV, Val};
use crate::ops::{has_leaf, mismatch_is_no_such_overload};
use crate::resolve::{Eval, Reply, Request};
use crate::runtime::heap::CelHeap;
use crate::semantics::{
    eval, eval_entries, eval_fields, eval_struct, EntriesV, EvalV, ReplyV, RequestV,
};
use crate::time::{Duration, Timestamp};
use crate::value::{opaque_view, Opaque, OptionalValue, Value};
use std::sync::Arc;
use vstd::prelude::*;

verus! {

/// A key is made of the integer, the boolean or the string that it is to be. A narrower
/// integer is taken for the number that it is.
pub proof fn keys_are_made_of_plain_values(
    i: i64,
    n: i32,
    u: u64,
    m: u32,
    b: bool,
    s: String,
    t: &str,
    a: Key,
    c: Key,
    d: Key,
    e: Key,
    f: Key,
    g: Key,
    h: Key,
)
    requires
        call_ensures(<Key as From<i64>>::from, (i,), a),
        call_ensures(<Key as From<i32>>::from, (n,), c),
        call_ensures(<Key as From<u64>>::from, (u,), d),
        call_ensures(<Key as From<u32>>::from, (m,), e),
        call_ensures(<Key as From<bool>>::from, (b,), f),
        call_ensures(<Key as From<String>>::from, (s,), g),
        call_ensures(<Key as From<&str>>::from, (t,), h),
    ensures
        a@ == Val::Int(i),
        c@ matches Val::Int(x) && x as int == n as int,
        d@ == Val::UInt(u),
        e@ matches Val::UInt(x) && x as int == m as int,
        f@ == Val::Bool(b),
        g@ == Val::Str(s@),
        h@ == Val::Str(t@),
{
}

/// A value is made of the plain value that it is to be, and is in public form.
pub proof fn values_are_made_of_plain_values(
    i: i64,
    u: u64,
    b: bool,
    s: String,
    bytes: Vec<u8>,
    items: Vec<Value>,
    key: Key,
    v1: Value,
    v2: Value,
    v3: Value,
    v4: Value,
    v5: Value,
    v6: Value,
    v7: Value,
)
    requires
        call_ensures(<Value as From<i64>>::from, (i,), v1),
        call_ensures(<Value as From<u64>>::from, (u,), v2),
        call_ensures(<Value as From<bool>>::from, (b,), v3),
        call_ensures(<Value as From<String>>::from, (s,), v4),
        call_ensures(<Value as From<Vec<u8>>>::from, (bytes,), v5),
        call_ensures(<Value as From<Vec<Value>>>::from, (items,), v6),
        call_ensures(<Value as From<Key>>::from, (key,), v7),
    ensures
        v1@ == Val::Int(i),
        v2@ == Val::UInt(u),
        v3@ == Val::Bool(b),
        v4@ == Val::Str(s@),
        v5@ == Val::Bytes(bytes@),
        v6@ == Val::List(Seq::new(items@.len(), |j: int| items@[j]@)),
        v7@ == key@,
{
    assert(values_view(items@) =~= Seq::new(items@.len(), |j: int| items@[j]@));
}

/// A missing value is null and one that is there is itself; an optional gives what it
/// holds; times and maps are what they are.
pub proof fn values_are_made_of_optionals_and_times(
    o: Option<Value>,
    opt: OptionalValue,
    d: Duration,
    t: Timestamp,
    m: CelMap,
    v1: Value,
    v2: Option<Value>,
    v3: Value,
    v4: Value,
    v5: Value,
    x: Option<&Value>,
)
    requires
        call_ensures(<Value as From<Option<Value>>>::from, (o,), v1),
        call_ensures(<Option<Value> as From<OptionalValue>>::from, (opt,), v2),
        call_ensures(<Value as From<Duration>>::from, (d,), v3),
        call_ensures(<Value as From<Timestamp>>::from, (t,), v4),
        call_ensures(<Value as From<CelMap>>::from, (m,), v5),
        call_ensures(OptionalValue::value, (&opt,), x),
    ensures
        match o {
            Some(v) => v1@ == v@,
            None => v1@ == Val::Null,
        },
        match (x, v2) {
            (Some(y), Some(z)) => y@ == z@,
            (None, None) => true,
            _ => false,
        },
        v3@ == Val::Duration(d@),
        v4@ == Val::Timestamp(t@),
        v5@ == Val::CelMap(m@),
{
}

/// An optional holds what it was made of, and nothing where it was made empty.
pub proof fn optionals_hold_what_they_are_made_of(
    v: Value,
    some: OptionalValue,
    none: OptionalValue,
    x: Option<&Value>,
    y: Option<&Value>,
)
    requires
        call_ensures(OptionalValue::of, (v,), some),
        call_ensures(OptionalValue::none, (), none),
        call_ensures(OptionalValue::value, (&some,), x),
        call_ensures(OptionalValue::value, (&none,), y),
    ensures
        x matches Some(z) && z@ == v@,
        y is None,
{
}

/// An interned integer, boolean or null is read as itself.
pub proof fn interned_values_are_what_they_are(
    h: &mut CelHeap,
    i: i64,
    b: bool,
    x: Value,
    y: Value,
    z: Value,
)
    requires
        call_ensures(Value::interned_int, (h, i), x),
        call_ensures(Value::interned_bool, (b,), y),
        call_ensures(Value::interned_null, (), z),
    ensures
        x@ == Val::Int(i) && !is_public(x),
        y@ == Val::Bool(b) && !is_public(y),
        z@ == Val::Null && !is_public(z),
        -5 <= i <= 256 ==> *final(h) == *old(h),
{
}

/// Opaque values are equal where they are types of one kind and name, objects of one type
/// and token, or optionals that are both empty or hold equal values.
pub proof fn opaque_values_are_compared(x: Opaque, y: Opaque, r: bool)
    requires
        call_ensures(opaque_eq, (&x, &y), r),
    ensures
        match (x, y) {
            (Opaque::Type(s), Opaque::Type(t)) => r == (s@ == t@),
            (Opaque::Host(a), Opaque::Host(b)) => r == (a.runtime_type@ == b.runtime_type@
                && a.token == b.token),
            (Opaque::Optional(_), Opaque::Optional(_)) => (opaque_view(x) == Val::Optional(None)
                && opaque_view(y) == Val::Optional(None) ==> r) && (opaque_view(x)
                == Val::Optional(None) && opaque_view(y) != Val::Optional(None) ==> !r),
            _ => !r,
        },
{
}

/// An error that a function reports names the function and its message; a value that is no
/// key is reported itself.
pub proof fn errors_are_made_of_their_parts(
    function: &str,
    message: &str,
    v: Value,
    e: ExecutionError,
    f: ExecutionError,
)
    requires
        call_ensures(ExecutionError::function_error, (function, message), e),
        call_ensures(ExecutionError::unsupported_key_type, (v,), f),
    ensures
        e@ == ErrV::FunctionError(function@, message@),
        f@ == ErrV::UnsupportedKeyType(v@),
{
}

/// The names of the operators, and the operands on the left for which an operator that
/// does not apply is an overload that is missing.
pub proof fn operators_have_names(op: BinOp, name: &'static str, v: Value, r: bool)
    requires
        call_ensures(BinOp::name, (op,), name),
        call_ensures(mismatch_is_no_such_overload, (op, &v), r),
    ensures
        op == BinOp::Add ==> name@ == "add"@,
        op == BinOp::Sub ==> name@ == "sub"@,
        op == BinOp::Mul ==> name@ == "mul"@,
        op == BinOp::Div ==> name@ == "div"@,
        op == BinOp::Rem ==> name@ == "rem"@,
        v@ is Int ==> r,
        v@ is List ==> r == (op == BinOp::Add),
        v@ is Duration ==> r == (op == BinOp::Sub),
        !(v@ is Int || v@ is List || v@ is Duration) ==> !r,
{
}

/// Times have a leaf where their nanoseconds fit 64 bits; scalars and lists always have
/// one. A map, a struct or an optional has none where something in it has none.
pub proof fn what_has_a_leaf(v: Value, r: bool, x: Value, s: bool, i: int)
    requires
        call_ensures(has_leaf, (&v,), r),
        call_ensures(has_leaf, (&x,), s),
    ensures
        match v@ {
            Val::Duration(d) => r == (-0x8000_0000_0000_0000 <= d <= 0x7fff_ffff_ffff_ffff),
            Val::Timestamp(t) => r == (-0x8000_0000_0000_0000 <= t.nanos
                <= 0x7fff_ffff_ffff_ffff),
            Val::CelMap(m) => {
                &&& 0 <= i < m.len() && m[i].1 == x@ && !s ==> !r
                &&& m.len() == 1 && m[0].1 == x@ ==> r == s
            },
            Val::Struct(_, f) => {
                &&& 0 <= i < f.len() && f[i].1 == x@ && !s ==> !r
                &&& f.len() == 1 && f[0].1 == x@ ==> r == s
            },
            Val::Optional(Some(y)) => *y == x@ ==> r == s,
            _ => r,
        },
{
}

/// What has no leaf has no place among leaves: asking a leaf for it is an overload that is
/// missing.
pub proof fn what_has_no_leaf_is_in_no_leaf(
    c: Value,
    v: Value,
    leaf: bool,
    r: Result<bool, ExecutionError>,
)
    requires
        call_ensures(has_leaf, (&v,), leaf),
        call_ensures(value_contains, (&c, &v), r),
        !is_public(c),
        is_public(v),
        !leaf,
    ensures
        r matches Err(e) && e@ == ErrV::NoSuchOverload,
{
}

/// A request says what it asks for.
pub proof fn a_request_says_what_it_asks_for(q: Request)
    ensures
        match q {
            Request::Overload { name, args } => q@ == RequestV::Overload(
                name@,
                Seq::new(args@.len(), |i: int| args@[i]@),
            ),
            Request::Function { name, args } => q@ == RequestV::Function(
                name@,
                Seq::new(args@.len(), |i: int| args@[i]@),
            ),
            Request::QualifiedOverload { prefix, name, args } => q@
                == RequestV::QualifiedOverload(
                prefix@,
                name@,
                Seq::new(args@.len(), |i: int| args@[i]@),
            ),
            Request::QualifiedFunction { prefix, name, args } => q@
                == RequestV::QualifiedFunction(
                prefix@,
                name@,
                Seq::new(args@.len(), |i: int| args@[i]@),
            ),
            Request::MemberOverload { name, args } => q@ == RequestV::MemberOverload(
                name@,
                Seq::new(args@.len(), |i: int| args@[i]@),
            ),
            Request::MemberFunction { name, target, args } => q@ == RequestV::MemberFunction(
                name@,
                target@,
                Seq::new(args@.len(), |i: int| args@[i]@),
            ),
            Request::Double { op, lhs, rhs } => q@ == RequestV::Double(op, lhs, rhs),
            Request::StructType { name } => q@ == RequestV::StructType(name@),
            Request::Unspecified => q@ == RequestV::Unspecified,
            Request::NewStruct { value } => match crate::value::struct_view(value) {
                Val::Struct(name, fields) => q@ == RequestV::NewStruct(name, fields),
                _ => false,
            },
        },
{
    match q {
        Request::Overload { name, args } => lemma_values(args@),
        Request::Function { name, args } => lemma_values(args@),
        Request::QualifiedOverload { prefix, name, args } => lemma_values(args@),
        Request::QualifiedFunction { prefix, name, args } => lemma_values(args@),
        Request::MemberOverload { name, args } => lemma_values(args@),
        Request::MemberFunction { name, target, args } => lemma_values(args@),
        _ => {},
    }
}

proof fn lemma_values(vs: Seq<Value>)
    ensures
        values_view(vs) == Seq::new(vs.len(), |i: int| vs[i]@),
{
    assert(values_view(vs) =~= Seq::new(vs.len(), |i: int| vs[i]@));
}

/// A reply gives a value, an error or nothing, and so does an evaluation that ends.
pub proof fn replies_and_results_are_what_they_hold(p: Reply, r: Eval)
    ensures
        match p {
            Reply::Declined => p@ == ReplyV::Declined,
            Reply::Value(v) => p@ == ReplyV::Value(v@),
            Reply::Failed(e) => p@ == ReplyV::Failed(e@),
        },
        match r {
            Eval::Done(v) => r@ == EvalV::Done(v@),
            Eval::Fail(e) => r@ == EvalV::Fail(e@),
            Eval::Ask(q) => r@ == EvalV::Ask(q@),
        },
{
}

/// A struct literal whose type is not known fails with its name; one that is known and
/// begins with something that is no field is an error of the program that built it.
pub proof fn a_struct_needs_its_type_and_its_fields(
    e: Expression,
    st: StructExpr,
    s: ScopeV,
    replies: Seq<ReplyV>,
    n: nat,
)
    requires
        e.expr == Expr::Struct(st),
        n < replies.len(),
    ensures
        replies[n as int] is Declined ==> eval(e, s, replies, n).0 == EvalV::Fail(
            ErrV::UnexpectedType(st.type_label@, "known struct"@),
        ),
        !(replies[n as int] is Declined) && st.entries@.len() == 1 && st.entries@[0] is MapEntry
            ==> eval(e, s, replies, n).0 == EvalV::Fail(
            ErrV::InternalError("Expected struct_field_expr"@),
        ),
{
    assert(eval(e, s, replies, n) == eval_struct(st, s, replies, n));
    assert(eval_fields(st.entries@, 0, s, replies, n + 1) == (
        EntriesV::Done(Seq::empty()),
        n + 1,
    ));
}

/// A field has no place in a map literal.
pub proof fn a_field_has_no_place_in_a_map(
    e: Expression,
    m: MapExpr,
    s: ScopeV,
    replies: Seq<ReplyV>,
    n: nat,
)
    requires
        e.expr == Expr::CelMap(m),
        m.entries@.len() == 1,
        m.entries@[0] is StructField,
    ensures
        eval(e, s, replies, n) == (EvalV::Ask(RequestV::Unspecified), n),
{
    assert(eval_entries(m.entries@, 0, s, replies, n) == (EntriesV::Done(Seq::empty()), n));
    assert(eval_entries(m.entries@, 1, s, replies, n) == (
        EntriesV::Ask(RequestV::Unspecified),
        n,
    ));
}

/// A buffer has as many elements as it was made of, and the ones that are there can be
/// read.
pub proof fn a_buffer_has_its_elements(
    items: Vec<Value>,
    ints: Vec<i64>,
    n: usize,
    m: usize,
    empty: bool,
    i: usize,
    can: bool,
)
    requires
        call_ensures(ListStorage::len, (&ListStorage::Object(items),), n),
        call_ensures(ListStorage::len, (&ListStorage::Ints(ints),), m),
        call_ensures(ListStorage::is_empty, (&ListStorage::Ints(ints),), empty),
        call_ensures(ListStorage::can_read, (&ListStorage::Ints(ints), i), can),
    ensures
        n == items@.len(),
        m == ints@.len(),
        empty <==> ints@.len() == 0,
        can <==> i < ints@.len(),
{
}

/// A list over a buffer has the buffer's elements and says whether they are unboxed.
pub proof fn a_list_says_what_it_is_over(
    ints: Vec<i64>,
    l: ListRef,
    boxed: Vec<Value>,
    k: ListRef,
    a: bool,
    b: bool,
    shared: Option<&ListStorage>,
    v: Value,
)
    requires
        call_ensures(ListRef::new, (ListStorage::Ints(ints),), l),
        call_ensures(ListRef::from_vec, (boxed,), k),
        call_ensures(ListRef::is_ints, (&l,), a),
        call_ensures(ListRef::is_ints, (&k,), b),
        call_ensures(ListRef::storage, (&l,), shared),
        call_ensures(Value::list, (ListStorage::Ints(ints),), v),
    ensures
        l@ == Seq::new(ints@.len(), |i: int| Val::Int(ints@[i])),
        v@ == Val::List(Seq::new(ints@.len(), |i: int| Val::Int(ints@[i]))),
        a && !b,
        shared is None,
{
    assert(crate::list::ints_view(ints@) =~= Seq::new(ints@.len(), |i: int| Val::Int(ints@[i])));
}

/// A column has as many rows as its words or codes; a row can be read where its code is a
/// place among the strings.
pub proof fn a_column_has_its_rows(
    codes: Arc<[i64]>,
    strings: Arc<[Arc<String>]>,
    bank: Arc<StrBank>,
    n: usize,
    none: bool,
    i: usize,
    can: bool,
    m: usize,
    empty: bool,
)
    requires
        call_ensures(StrBank::new, (codes, strings), *bank),
        call_ensures(StrBank::len, (&*bank,), n),
        call_ensures(StrBank::is_empty, (&*bank,), none),
        call_ensures(ValueColumn::can_read, (&ValueColumn::Str(bank), i), can),
        call_ensures(ValueColumn::len, (&ValueColumn::Str(bank),), m),
        call_ensures(ValueColumn::is_empty, (&ValueColumn::Str(bank),), empty),
    ensures
        n == codes@.len() && m == codes@.len(),
        none == (n == 0) && empty == (n == 0),
        can <==> i < codes@.len() && 0 <= codes@[i as int] < strings@.len(),
{
}

/// A schema has the keys that it was made of, and as many rows as each of its columns; it
/// can be made where there is a column for every key and all are equally long.
pub proof fn a_schema_has_its_keys_and_rows(
    keys: Vec<Key>,
    columns: Vec<ValueColumn>,
    schema: RecordSchema,
    fits: bool,
    fields: usize,
    rows: usize,
    ks: &Vec<Key>,
    i: usize,
    can: bool,
    f: int,
    there: bool,
)
    requires
        call_ensures(RecordSchema::is_shape, (&keys, &columns), fits),
        fits,
        call_ensures(RecordSchema::new, (keys, columns), schema),
        call_ensures(RecordSchema::field_count, (&schema,), fields),
        call_ensures(RecordSchema::rows, (&schema,), rows),
        call_ensures(RecordSchema::keys, (&schema,), ks),
        call_ensures(RecordSchema::can_read, (&schema, i), can),
        0 <= f < columns@.len(),
        call_ensures(ValueColumn::can_read, (&columns@[f], i), there),
    ensures
        fields == keys@.len(),
        keys@.len() == columns@.len(),
        rows == columns@[f]@.len(),
        ks@ == keys@,
        can ==> there,
        columns@.len() == 1 ==> can == there,
{
}

/// A table copied out of a map has the map's entries; a map filled from a table has the
/// table's, and is kept for scanning where at most eight were expected.
pub proof fn maps_and_tables_hold_the_same(
    m: CelMap,
    t: Table,
    u: Table,
    n: usize,
    c: CelMap,
    kind: &MapStorage,
)
    requires
        call_ensures(CelMap::to_table, (&m,), t),
        crate::model::distinct_keys(m@),
        call_ensures(CelMap::filled, (u, n), c),
        call_ensures(CelMap::storage, (&c,), kind),
    ensures
        t@ == m@,
        c@ == u@,
        *kind is Entries <==> n <= 8,
        *kind is Object <==> n > 8,
{
    lemma_insert_all_distinct(m@);
}

} // verus!
