//! What is equal to what.

use crate::laws::equality::maps_are_valid;
use crate::map::lemma_position;
use crate::model::{distinct_keys, leaf_eq, leaf_found, position, val_eq, TypeV, Val};
use crate::time::Instant;
use vstd::prelude::*;

verus! {

/// The sorts of value of which no two are ever equal.
#[derive(PartialEq, Eq, Structural)]
pub enum Sort {
    Null,
    Bool,
    Number,
    Text,
    Bytes,
    Duration,
    Timestamp,
    List,
    CelMap,
    Optional,
    Type,
    Host,
    Struct,
    Invalid,
}

/// The sort of a value. The numbers are one sort.
pub open spec fn sort_of(v: Val) -> Sort {
    match v {
        Val::Null => Sort::Null,
        Val::Bool(_) => Sort::Bool,
        Val::Int(_) | Val::UInt(_) | Val::Double(_) => Sort::Number,
        Val::Str(_) => Sort::Text,
        Val::Bytes(_) => Sort::Bytes,
        Val::Duration(_) => Sort::Duration,
        Val::Timestamp(_) => Sort::Timestamp,
        Val::List(_) => Sort::List,
        Val::CelMap(_) => Sort::CelMap,
        Val::Optional(_) => Sort::Optional,
        Val::Type(_) => Sort::Type,
        Val::Host(_, _) => Sort::Host,
        Val::Struct(_, _) => Sort::Struct,
        Val::Invalid(_) => Sort::Invalid,
    }
}

/// Values of different sorts are never equal, and a struct equals nothing.
pub proof fn equal_values_are_of_one_sort(a: Val, b: Val)
    ensures
        val_eq(a, b) ==> sort_of(a) == sort_of(b) && !(a is Struct) && !(a is Invalid),
        leaf_eq(a, b) ==> sort_of(a) == sort_of(b) && !(a is Struct) && !(a is Invalid),
{
}

/// Lists are equal exactly where they are as long as each other and have equal elements
/// at each place, and so are lists of the runtime.
pub proof fn equal_lists_have_equal_elements(x: Seq<Val>, y: Seq<Val>)
    ensures
        val_eq(Val::List(x), Val::List(y)) <==> x.len() == y.len() && forall|i: int|
            0 <= i < x.len() ==> val_eq(#[trigger] x[i], y[i]),
        leaf_eq(Val::List(x), Val::List(y)) <==> x.len() == y.len() && forall|i: int|
            0 <= i < x.len() ==> leaf_eq(#[trigger] x[i], y[i]),
{
}

/// A list never equals one that goes on longer.
pub proof fn a_list_does_not_equal_a_longer_one(x: Seq<Val>, y: Seq<Val>)
    requires
        y.len() > 0,
    ensures
        !val_eq(Val::List(x), Val::List(x + y)),
        !val_eq(Val::List(x + y), Val::List(x)),
        !leaf_eq(Val::List(x), Val::List(x + y)),
        !leaf_eq(Val::List(x + y), Val::List(x)),
{
}

/// Whether some entry of `m` has the key `k` and a value that equals `v`.
pub open spec fn has_entry(m: Seq<(Val, Val)>, k: Val, v: Val) -> bool {
    exists|j: int| 0 <= j < m.len() && (#[trigger] m[j]).0 == k && val_eq(v, m[j].1)
}

/// Maps are equal exactly where they have as many entries, and each entry of the one has
/// one in the other with the same key and an equal value; the order of the entries does
/// not matter.
pub proof fn equal_maps_have_equal_entries(x: Seq<(Val, Val)>, y: Seq<(Val, Val)>)
    requires
        distinct_keys(x),
        distinct_keys(y),
    ensures
        val_eq(Val::CelMap(x), Val::CelMap(y)) ==> x.len() == y.len() && forall|i: int|
            0 <= i < x.len() ==> has_entry(y, (#[trigger] x[i]).0, x[i].1),
        x.len() == y.len() && (forall|i: int|
            0 <= i < x.len() ==> has_entry(y, (#[trigger] x[i]).0, x[i].1)) && (forall|j: int|
            0 <= j < y.len() ==> exists|i: int|
                0 <= i < x.len() && (#[trigger] x[i]).0 == (#[trigger] y[j]).0) ==> val_eq(
            Val::CelMap(x),
            Val::CelMap(y),
        ),
        val_eq(Val::CelMap(x), Val::CelMap(y)) ==> forall|j: int|
            0 <= j < y.len() ==> exists|i: int|
                0 <= i < x.len() && (#[trigger] x[i]).0 == (#[trigger] y[j]).0,
{
    if val_eq(Val::CelMap(x), Val::CelMap(y)) {
        assert forall|i: int| 0 <= i < x.len() implies has_entry(
            y,
            (#[trigger] x[i]).0,
            x[i].1,
        ) by {
            lemma_position(y, x[i].0);
            let p = position(y, x[i].0);
            assert(y[p].0 == x[i].0);
        }
        assert forall|j: int| 0 <= j < y.len() implies exists|i: int|
            0 <= i < x.len() && (#[trigger] x[i]).0 == (#[trigger] y[j]).0 by {
            lemma_position(x, y[j].0);
            let p = position(x, y[j].0);
            assert(x[p].0 == y[j].0);
        }
    }
    if x.len() == y.len() && (forall|i: int|
        0 <= i < x.len() ==> has_entry(y, (#[trigger] x[i]).0, x[i].1)) && (forall|j: int|
        0 <= j < y.len() ==> exists|i: int|
            0 <= i < x.len() && (#[trigger] x[i]).0 == (#[trigger] y[j]).0) {
        assert forall|i: int| 0 <= i < x.len() implies ({
            let p = position(y, (#[trigger] x[i]).0);
            0 <= p < y.len() && val_eq(x[i].1, y[p].1)
        }) by {
            assert(has_entry(y, x[i].0, x[i].1));
            let j = choose|j: int|
                0 <= j < y.len() && (#[trigger] y[j]).0 == x[i].0 && val_eq(x[i].1, y[j].1);
            lemma_position(y, x[i].0);
        }
        assert forall|j: int| 0 <= j < y.len() implies ({
            let p = position(x, (#[trigger] y[j]).0);
            0 <= p < x.len() && val_eq(x[p].1, y[j].1)
        }) by {
            let i = choose|i: int| 0 <= i < x.len() && (#[trigger] x[i]).0 == y[j].0;
            lemma_position(x, y[j].0);
            lemma_position(y, x[i].0);
            let p = position(y, x[i].0);
            assert(0 <= p < y.len() && val_eq(x[i].1, y[p].1));
            assert(y[p].0 == y[j].0);
        }
    }
}

/// Whether some entry of `m` has a key and a value that equal `k` and `v` to the runtime.
pub open spec fn has_leaf_entry(m: Seq<(Val, Val)>, k: Val, v: Val) -> bool {
    exists|j: int| 0 <= j < m.len() && leaf_eq(k, (#[trigger] m[j]).0) && leaf_eq(v, m[j].1)
}

/// Maps of the runtime are equal exactly where they have as many entries, and each entry
/// of the one has one in the other with an equal key and an equal value.
pub proof fn equal_leaf_maps_have_equal_entries(x: Seq<(Val, Val)>, y: Seq<(Val, Val)>)
    ensures
        leaf_eq(Val::CelMap(x), Val::CelMap(y)) <==> x.len() == y.len() && forall|i: int|
            0 <= i < x.len() ==> has_leaf_entry(y, (#[trigger] x[i]).0, x[i].1),
{
    assert forall|i: int| 0 <= i < x.len() implies leaf_found(#[trigger] x[i], y)
        == has_leaf_entry(y, x[i].0, x[i].1) by {}
}

/// Optionals are equal where both are empty, or hold equal values. Types, and objects of
/// the host, are equal where they are the same, and null equals itself.
pub proof fn the_other_values_are_equal_where_they_are_the_same(
    p: Val,
    q: Val,
    t: TypeV,
    u: TypeV,
    name: Seq<char>,
    other: Seq<char>,
    x: u64,
    y: u64,
)
    ensures
        val_eq(Val::Null, Val::Null),
        val_eq(Val::Optional(None), Val::Optional(None)),
        !val_eq(Val::Optional(None), Val::Optional(Some(Box::new(p)))),
        !val_eq(Val::Optional(Some(Box::new(p))), Val::Optional(None)),
        val_eq(Val::Optional(Some(Box::new(p))), Val::Optional(Some(Box::new(q)))) == val_eq(p, q),
        leaf_eq(Val::Optional(None), Val::Optional(None)),
        !leaf_eq(Val::Optional(None), Val::Optional(Some(Box::new(p)))),
        !leaf_eq(Val::Optional(Some(Box::new(p))), Val::Optional(None)),
        leaf_eq(Val::Optional(Some(Box::new(p))), Val::Optional(Some(Box::new(q)))) == leaf_eq(
            p,
            q,
        ),
        val_eq(Val::Type(t), Val::Type(u)) == (t == u),
        val_eq(Val::Host(name, x), Val::Host(other, y)) == (name == other && x == y),
{
}

/// Whether `part` is a value without parts that stands somewhere in a value.
pub open spec fn has_part(v: Val, part: Val) -> bool
    decreases v,
{
    match v {
        Val::List(s) => exists|i: int| 0 <= i < s.len() && has_part(#[trigger] s[i], part),
        Val::CelMap(m) => exists|i: int| 0 <= i < m.len() && has_part((#[trigger] m[i]).1, part),
        Val::Optional(Some(p)) => has_part(*p, part),
        _ => v == part,
    }
}

/// Whether a value is an integer of either type.
pub open spec fn is_integer(v: Val) -> bool {
    v is Int || v is UInt
}

/// Whether no double in the second value equals two integers, one of the first value and
/// one of the third, that are not equal to each other.
pub open spec fn doubles_keep_integers_apart(a: Val, b: Val, c: Val) -> bool {
    forall|x: Val, d: Val, y: Val|
        #![trigger has_part(a, x), has_part(b, d), has_part(c, y)]
        has_part(a, x) && has_part(b, d) && has_part(c, y) && is_integer(x) && d is Double
            && is_integer(y) && val_eq(x, d) && val_eq(d, y) ==> val_eq(x, y)
}

proof fn lists_are_transitive(a: Val, b: Val, c: Val)
    requires
        val_eq(a, b),
        val_eq(b, c),
        maps_are_valid(a),
        maps_are_valid(b),
        maps_are_valid(c),
        doubles_keep_integers_apart(a, b, c),
        a is List,
    ensures
        val_eq(a, c),
    decreases a, 0nat,
{
    let (x, y, z) = (a->List_0, b->List_0, c->List_0);
    assert forall|i: int| 0 <= i < x.len() implies val_eq(#[trigger] x[i], z[i]) by {
        assert(decreases_to!(a => x));
        assert(decreases_to!(x => x[i]));
        assert(val_eq(x[i], y[i]));
        assert(val_eq(y[i], z[i]));
        assert(doubles_keep_integers_apart(x[i], y[i], z[i])) by {
            assert forall|u: Val, d: Val, w: Val|
                #![trigger has_part(x[i], u), has_part(y[i], d), has_part(z[i], w)]
                has_part(x[i], u) && has_part(y[i], d) && has_part(z[i], w) && is_integer(u)
                    && d is Double && is_integer(w) && val_eq(u, d) && val_eq(
                    d,
                    w,
                ) implies val_eq(u, w) by {
                assert(has_part(a, u) && has_part(b, d) && has_part(c, w));
            }
        }
        equality_is_transitive(x[i], y[i], z[i]);
    }
}

/// The values of three entries, one of each of three maps.
proof fn entries_are_transitive(a: Val, b: Val, c: Val, i: int, p: int, q: int)
    requires
        a is CelMap,
        b is CelMap,
        c is CelMap,
        0 <= i < a->CelMap_0.len(),
        0 <= p < b->CelMap_0.len(),
        0 <= q < c->CelMap_0.len(),
        val_eq(a->CelMap_0[i].1, b->CelMap_0[p].1),
        val_eq(b->CelMap_0[p].1, c->CelMap_0[q].1),
        maps_are_valid(a),
        maps_are_valid(b),
        maps_are_valid(c),
        doubles_keep_integers_apart(a, b, c),
    ensures
        val_eq(a->CelMap_0[i].1, c->CelMap_0[q].1),
    decreases a, 0nat,
{
    let (x, y, z) = (a->CelMap_0, b->CelMap_0, c->CelMap_0);
    let (l, m, r) = (x[i].1, y[p].1, z[q].1);
    assert(decreases_to!(a => x));
    assert(decreases_to!(x => x[i]));
    assert(decreases_to!(x[i] => x[i].1));
    assert(maps_are_valid(x[i].1) && maps_are_valid(y[p].1) && maps_are_valid(z[q].1));
    assert(doubles_keep_integers_apart(l, m, r)) by {
        assert forall|u: Val, d: Val, w: Val|
            #![trigger has_part(l, u), has_part(m, d), has_part(r, w)]
            has_part(l, u) && has_part(m, d) && has_part(r, w) && is_integer(u) && d is Double
                && is_integer(w) && val_eq(u, d) && val_eq(d, w) implies val_eq(u, w) by {
            assert(has_part(x[i].1, u) && has_part(y[p].1, d) && has_part(z[q].1, w));
            assert(has_part(a, u) && has_part(b, d) && has_part(c, w));
        }
    }
    equality_is_transitive(l, m, r);
}

/// Whether entry `i` of `x` has an equal one in `y`.
#[verifier::opaque]
spec fn goes_over(x: Seq<(Val, Val)>, y: Seq<(Val, Val)>, i: int) -> bool {
    let p = position(y, x[i].0);
    0 <= p < y.len() && val_eq(x[i].1, y[p].1)
}

/// Whether entry `j` of `y` has an equal one in `x`.
#[verifier::opaque]
spec fn comes_over(x: Seq<(Val, Val)>, y: Seq<(Val, Val)>, j: int) -> bool {
    let p = position(x, y[j].0);
    0 <= p < x.len() && val_eq(x[p].1, y[j].1)
}

proof fn lemma_over_and_back(x: Seq<(Val, Val)>, y: Seq<(Val, Val)>)
    ensures
        val_eq(Val::CelMap(x), Val::CelMap(y)) == {
            &&& x.len() == y.len()
            &&& forall|i: int| 0 <= i < x.len() ==> #[trigger] goes_over(x, y, i)
            &&& forall|j: int| 0 <= j < y.len() ==> #[trigger] comes_over(x, y, j)
        },
{
    reveal(goes_over);
    reveal(comes_over);
    if val_eq(Val::CelMap(x), Val::CelMap(y)) {
    } else if x.len() == y.len() && (forall|i: int|
        0 <= i < x.len() ==> #[trigger] goes_over(x, y, i)) && (forall|j: int|
        0 <= j < y.len() ==> #[trigger] comes_over(x, y, j)) {
        assert forall|i: int| 0 <= i < x.len() implies ({
            let p = position(y, (#[trigger] x[i]).0);
            0 <= p < y.len() && val_eq(x[i].1, y[p].1)
        }) by {
            assert(goes_over(x, y, i));
        }
        assert forall|j: int| 0 <= j < y.len() implies ({
            let p = position(x, (#[trigger] y[j]).0);
            0 <= p < x.len() && val_eq(x[p].1, y[j].1)
        }) by {
            assert(comes_over(x, y, j));
        }
    }
}

proof fn goes_further(a: Val, b: Val, c: Val, i: int)
    requires
        a is CelMap,
        b is CelMap,
        c is CelMap,
        0 <= i < a->CelMap_0.len(),
        goes_over(a->CelMap_0, b->CelMap_0, i),
        forall|p: int|
            0 <= p < b->CelMap_0.len() ==> #[trigger] goes_over(b->CelMap_0, c->CelMap_0, p),
        maps_are_valid(a),
        maps_are_valid(b),
        maps_are_valid(c),
        doubles_keep_integers_apart(a, b, c),
    ensures
        goes_over(a->CelMap_0, c->CelMap_0, i),
    decreases a, 1nat,
{
    reveal(goes_over);
    let (x, y, z) = (a->CelMap_0, b->CelMap_0, c->CelMap_0);
    let p = position(y, x[i].0);
    lemma_position(y, x[i].0);
    assert(goes_over(y, z, p));
    entries_are_transitive(a, b, c, i, p, position(z, y[p].0));
}

proof fn comes_further(a: Val, b: Val, c: Val, j: int)
    requires
        a is CelMap,
        b is CelMap,
        c is CelMap,
        0 <= j < c->CelMap_0.len(),
        comes_over(b->CelMap_0, c->CelMap_0, j),
        forall|p: int|
            0 <= p < b->CelMap_0.len() ==> #[trigger] comes_over(a->CelMap_0, b->CelMap_0, p),
        maps_are_valid(a),
        maps_are_valid(b),
        maps_are_valid(c),
        doubles_keep_integers_apart(a, b, c),
    ensures
        comes_over(a->CelMap_0, c->CelMap_0, j),
    decreases a, 1nat,
{
    reveal(comes_over);
    let (x, y, z) = (a->CelMap_0, b->CelMap_0, c->CelMap_0);
    let p = position(y, z[j].0);
    lemma_position(y, z[j].0);
    assert(comes_over(x, y, p));
    entries_are_transitive(a, b, c, position(x, y[p].0), p, j);
}

proof fn maps_are_transitive(a: Val, b: Val, c: Val)
    requires
        val_eq(a, b),
        val_eq(b, c),
        maps_are_valid(a),
        maps_are_valid(b),
        maps_are_valid(c),
        doubles_keep_integers_apart(a, b, c),
        a is CelMap,
    ensures
        val_eq(a, c),
    decreases a, 2nat,
{
    assert(b is CelMap && c is CelMap);
    let (x, y, z) = (a->CelMap_0, b->CelMap_0, c->CelMap_0);
    lemma_over_and_back(x, y);
    lemma_over_and_back(y, z);
    lemma_over_and_back(x, z);
    assert forall|i: int| 0 <= i < x.len() implies #[trigger] goes_over(x, z, i) by {
        assert(goes_over(x, y, i));
        goes_further(a, b, c, i);
    }
    assert forall|j: int| 0 <= j < z.len() implies #[trigger] comes_over(x, z, j) by {
        assert(comes_over(y, z, j));
        comes_further(a, b, c, j);
    }
}

proof fn scalars_are_transitive(a: Val, b: Val, c: Val)
    requires
        val_eq(a, b),
        val_eq(b, c),
        maps_are_valid(a),
        maps_are_valid(b),
        maps_are_valid(c),
        doubles_keep_integers_apart(a, b, c),
        !(a is List) && !(a is CelMap) && !(a is Optional),
    ensures
        val_eq(a, c),
{
    assert(!(b is List) && !(b is CelMap) && !(b is Optional));
    assert(!(c is List) && !(c is CelMap) && !(c is Optional));
    assert(has_part(a, a) && has_part(b, b) && has_part(c, c));
    if is_integer(a) {
    } else if a is Double {
    }
}

/// What equals the same is equal: `a == b` and `b == c` make `a == c`, but where a
/// rounded integer comes between.
pub proof fn equality_is_transitive(a: Val, b: Val, c: Val)
    requires
        val_eq(a, b),
        val_eq(b, c),
        maps_are_valid(a),
        maps_are_valid(b),
        maps_are_valid(c),
        doubles_keep_integers_apart(a, b, c),
    ensures
        val_eq(a, c),
    decreases a, 3nat,
{
    match a {
        Val::List(_) => lists_are_transitive(a, b, c),
        Val::CelMap(_) => maps_are_transitive(a, b, c),
        Val::Optional(Some(p)) => {
            let (q, r) = (b->Optional_0->0, c->Optional_0->0);
            assert(decreases_to!(a => p));
            assert(doubles_keep_integers_apart(*p, *q, *r)) by {
                assert forall|u: Val, d: Val, w: Val|
                    #![trigger has_part(*p, u), has_part(*q, d), has_part(*r, w)]
                    has_part(*p, u) && has_part(*q, d) && has_part(*r, w) && is_integer(u)
                        && d is Double && is_integer(w) && val_eq(u, d) && val_eq(
                        d,
                        w,
                    ) implies val_eq(u, w) by {
                    assert(has_part(a, u) && has_part(b, d) && has_part(c, w));
                }
            }
            equality_is_transitive(*p, *q, *r);
        },
        Val::Optional(None) => {},
        _ => scalars_are_transitive(a, b, c),
    }
}

/// Booleans, integers, strings, byte strings and durations are equal where they are the
/// same; an integer equals an unsigned one where both are one number. The runtime says so
/// of leaves too.
pub proof fn simple_values_are_equal_where_they_are_the_same(
    a: bool,
    b: bool,
    i: i64,
    j: i64,
    u: u64,
    v: u64,
    s: Seq<char>,
    t: Seq<char>,
    x: Seq<u8>,
    y: Seq<u8>,
    d: int,
    e: int,
)
    ensures
        val_eq(Val::Bool(a), Val::Bool(b)) == (a == b),
        val_eq(Val::Int(i), Val::Int(j)) == (i == j),
        val_eq(Val::UInt(u), Val::UInt(v)) == (u == v),
        val_eq(Val::Int(i), Val::UInt(u)) == (i as int == u as int),
        val_eq(Val::UInt(u), Val::Int(i)) == (i as int == u as int),
        val_eq(Val::Str(s), Val::Str(t)) == (s == t),
        val_eq(Val::Bytes(x), Val::Bytes(y)) == (x == y),
        val_eq(Val::Duration(d), Val::Duration(e)) == (d == e),
        leaf_eq(Val::Bool(a), Val::Bool(b)) == (a == b),
        leaf_eq(Val::Int(i), Val::Int(j)) == (i == j),
        leaf_eq(Val::UInt(u), Val::UInt(v)) == (u == v),
        leaf_eq(Val::Int(i), Val::UInt(u)) == (i as int == u as int),
        leaf_eq(Val::UInt(u), Val::Int(i)) == (i as int == u as int),
        leaf_eq(Val::Str(s), Val::Str(t)) == (s == t),
        leaf_eq(Val::Bytes(x), Val::Bytes(y)) == (x == y),
        leaf_eq(Val::Duration(d), Val::Duration(e)) == (d == e),
{
}

/// Timestamps are equal where they are the same instant, in whichever offset. A leap second
/// is an instant of its own to expressions, and to the runtime the one with its
/// nanoseconds.
pub proof fn timestamps_are_equal_where_they_are_one_instant(t: Instant, u: Instant)
    ensures
        t.leap == u.leap && t.nanos == u.nanos ==> val_eq(Val::Timestamp(t), Val::Timestamp(u)),
        t.leap == u.leap && t.nanos != u.nanos ==> !val_eq(Val::Timestamp(t), Val::Timestamp(u)),
        t.leap != u.leap && t.nanos == u.nanos ==> !val_eq(Val::Timestamp(t), Val::Timestamp(u)),
        leaf_eq(Val::Timestamp(t), Val::Timestamp(u)) == (t.nanos == u.nanos),
{
}

} // verus!
