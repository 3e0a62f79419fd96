//! Equality and order.

use crate::double::{
    double_eq, double_of_int, double_order_reverses, int_order, is_nan, reversed, Order,
};
use crate::map::lemma_position;
use crate::model::{
    compare, distinct_keys, is_key, leaf_eq, leaf_found, other_integer, position, val_eq, val_order,
    CmpOp, ErrV, Val,
};
use crate::text::{bytes_order_equal_iff_same, bytes_order_reverses};
use crate::time::Instant;
use vstd::prelude::*;
use vstd::set_lib::{lemma_int_range, lemma_subset_equality, set_int_range};
use vstd::utf8::{encode_utf8, encode_utf8_decode_utf8};

verus! {

/// Equality of doubles does not depend on the side.
proof fn double_eq_is_symmetric(x: u64, y: u64)
    ensures
        double_eq(x, y) == double_eq(y, x),
{
    double_order_reverses(x, y);
}

/// Maps whose values compare alike from either side are equal from either side.
proof fn maps_exchange(x: Seq<(Val, Val)>, y: Seq<(Val, Val)>)
    requires
        forall|i: int, j: int|
            0 <= i < x.len() && 0 <= j < y.len() ==> val_eq((#[trigger] x[i]).1, (#[trigger] y[j]).1)
                == val_eq(y[j].1, x[i].1),
    ensures
        val_eq(Val::CelMap(x), Val::CelMap(y)) ==> val_eq(Val::CelMap(y), Val::CelMap(x)),
{
    if val_eq(Val::CelMap(x), Val::CelMap(y)) {
        assert forall|j: int| 0 <= j < y.len() implies ({
            let p = position(x, (#[trigger] y[j]).0);
            0 <= p < x.len() && val_eq(y[j].1, x[p].1)
        }) by {
            let p = position(x, y[j].0);
            assert(0 <= p < x.len() && val_eq(x[p].1, y[j].1));
        }
        assert forall|i: int| 0 <= i < x.len() implies ({
            let p = position(y, (#[trigger] x[i]).0);
            0 <= p < y.len() && val_eq(y[p].1, x[i].1)
        }) by {
            let p = position(y, x[i].0);
            assert(0 <= p < y.len() && val_eq(x[i].1, y[p].1));
        }
    }
}

/// `a == b` exactly when `b == a`.
pub proof fn equality_is_symmetric(a: Val, b: Val)
    ensures
        val_eq(a, b) == val_eq(b, a),
    decreases a,
{
    match (a, b) {
        (Val::Double(x), Val::Double(y)) => double_eq_is_symmetric(x, y),
        (Val::Int(x), Val::Double(y)) => double_eq_is_symmetric(double_of_int(x as int), y),
        (Val::Double(x), Val::Int(y)) => double_eq_is_symmetric(x, double_of_int(y as int)),
        (Val::UInt(x), Val::Double(y)) => double_eq_is_symmetric(double_of_int(x as int), y),
        (Val::Double(x), Val::UInt(y)) => double_eq_is_symmetric(x, double_of_int(y as int)),
        (Val::List(x), Val::List(y)) => {
            assert forall|i: int| 0 <= i < x.len() && i < y.len() implies val_eq(
                #[trigger] x[i],
                #[trigger] y[i],
            ) == val_eq(y[i], x[i]) by {
                assert(decreases_to!(a => x));
                assert(decreases_to!(x => x[i]));
                equality_is_symmetric(x[i], y[i]);
            }
        },
        (Val::CelMap(x), Val::CelMap(y)) => {
            assert forall|i: int, j: int| 0 <= i < x.len() && 0 <= j < y.len() implies val_eq(
                (#[trigger] x[i]).1,
                (#[trigger] y[j]).1,
            ) == val_eq(y[j].1, x[i].1) by {
                assert(decreases_to!(a => x));
                assert(decreases_to!(x => x[i]));
                assert(decreases_to!(x[i] => x[i].1));
                equality_is_symmetric(x[i].1, y[j].1);
            }
            maps_exchange(x, y);
            maps_exchange(y, x);
        },
        (Val::Optional(Some(p)), Val::Optional(Some(q))) => {
            assert(decreases_to!(a => p));
            equality_is_symmetric(*p, *q);
        },
        _ => {},
    }
}

/// Whether a value holds nothing that differs from itself: no NaN, no struct, and
/// nothing that is no value.
pub open spec fn equals_itself(v: Val) -> bool
    decreases v,
{
    match v {
        Val::Double(d) => !is_nan(d),
        Val::List(s) => forall|i: int| 0 <= i < s.len() ==> equals_itself(#[trigger] s[i]),
        Val::CelMap(m) => forall|i: int| 0 <= i < m.len() ==> equals_itself((#[trigger] m[i]).1),
        Val::Optional(Some(p)) => equals_itself(*p),
        Val::Struct(_, _) | Val::Invalid(_) => false,
        _ => true,
    }
}

/// Whether no map in a value has a key twice.
pub open spec fn maps_are_valid(v: Val) -> bool
    decreases v,
{
    match v {
        Val::List(s) => forall|i: int| 0 <= i < s.len() ==> maps_are_valid(#[trigger] s[i]),
        Val::CelMap(m) => {
            &&& distinct_keys(m)
            &&& forall|i: int| 0 <= i < m.len() ==> maps_are_valid((#[trigger] m[i]).1)
        },
        Val::Optional(Some(p)) => maps_are_valid(*p),
        _ => true,
    }
}

/// A value equals itself exactly when it holds no NaN and no struct.
pub proof fn equality_is_reflexive(v: Val)
    requires
        maps_are_valid(v),
    ensures
        val_eq(v, v) == equals_itself(v),
    decreases v,
{
    match v {
        Val::List(s) => {
            assert forall|i: int| 0 <= i < s.len() implies val_eq(#[trigger] s[i], s[i])
                == equals_itself(s[i]) by {
                assert(decreases_to!(v => s));
                assert(decreases_to!(s => s[i]));
                equality_is_reflexive(s[i]);
            }
        },
        Val::CelMap(m) => {
            assert forall|i: int| 0 <= i < m.len() implies position(m, (#[trigger] m[i]).0) == i
                && val_eq(m[i].1, m[i].1) == equals_itself(m[i].1) by {
                lemma_position(m, m[i].0);
                assert(decreases_to!(v => m));
                assert(decreases_to!(m => m[i]));
                assert(decreases_to!(m[i] => m[i].1));
                equality_is_reflexive(m[i].1);
            }
        },
        Val::Optional(Some(p)) => {
            assert(decreases_to!(v => p));
            equality_is_reflexive(*p);
        },
        _ => {},
    }
}

/// The order of two values, seen from the other side.
pub open spec fn exchanged(o: Option<Order>) -> Option<Order> {
    match o {
        Some(x) => Some(reversed(x)),
        None => None,
    }
}

/// Exchanging the operands reverses their order, and two values that have no order
/// one way have none the other way.
pub proof fn order_reverses(a: Val, b: Val)
    ensures
        val_order(b, a) == exchanged(val_order(a, b)),
{
    match (a, b) {
        (Val::Double(x), Val::Double(y)) => double_order_reverses(x, y),
        (Val::Int(x), Val::Double(y)) => double_order_reverses(double_of_int(x as int), y),
        (Val::Double(x), Val::Int(y)) => double_order_reverses(x, double_of_int(y as int)),
        (Val::UInt(x), Val::Double(y)) => double_order_reverses(double_of_int(x as int), y),
        (Val::Double(x), Val::UInt(y)) => double_order_reverses(x, double_of_int(y as int)),
        (Val::Str(x), Val::Str(y)) => bytes_order_reverses(encode_utf8(x), encode_utf8(y)),
        (Val::Bytes(x), Val::Bytes(y)) => bytes_order_reverses(x, y),
        _ => {},
    }
}

/// Two values that have an order are equal exactly when neither comes first.
pub proof fn order_agrees_with_equality(a: Val, b: Val)
    requires
        val_order(a, b) is Some,
    ensures
        val_eq(a, b) == (val_order(a, b) == Some(Order::Equal)),
{
    match (a, b) {
        (Val::Str(x), Val::Str(y)) => {
            bytes_order_equal_iff_same(encode_utf8(x), encode_utf8(y));
            encode_utf8_decode_utf8(x);
            encode_utf8_decode_utf8(y);
        },
        (Val::Bytes(x), Val::Bytes(y)) => bytes_order_equal_iff_same(x, y),
        _ => {},
    }
}

/// `a < b` is `b > a` and `a <= b` is `b >= a`, errors included.
pub proof fn comparison_exchanges(a: Val, b: Val)
    ensures
        compare(CmpOp::Less, a, b) == compare(CmpOp::Greater, b, a),
        compare(CmpOp::LessEquals, a, b) == compare(CmpOp::GreaterEquals, b, a),
{
    order_reverses(a, b);
}

/// Where values have an order, exactly one of `a < b`, `a == b` and `a > b` holds,
/// and `<=` and `>=` are the negations of `>` and `<`.
pub proof fn comparison_is_a_trichotomy(a: Val, b: Val)
    requires
        compare(CmpOp::Less, a, b) is Ok,
    ensures
        ({
            let less = compare(CmpOp::Less, a, b) == Ok::<Val, ErrV>(Val::Bool(true));
            let greater = compare(CmpOp::Greater, a, b) == Ok::<Val, ErrV>(Val::Bool(true));
            &&& !(less && greater)
            &&& val_eq(a, b) == (!less && !greater)
            &&& compare(CmpOp::LessEquals, a, b) == Ok::<Val, ErrV>(Val::Bool(!greater))
            &&& compare(CmpOp::GreaterEquals, a, b) == Ok::<Val, ErrV>(Val::Bool(!less))
        }),
{
    order_agrees_with_equality(a, b);
}

/// Whether `k` is a key of a map somewhere in a value.
pub open spec fn has_key_within(v: Val, k: Val) -> bool
    decreases v,
{
    match v {
        Val::List(s) => exists|i: int| 0 <= i < s.len() && has_key_within(#[trigger] s[i], k),
        Val::CelMap(m) => exists|i: int|
            0 <= i < m.len() && ((#[trigger] m[i]).0 == k || has_key_within(m[i].1, k)),
        Val::Optional(Some(p)) => has_key_within(*p, k),
        _ => false,
    }
}

/// Whether no number is a key of an `int` in the one value and a key of a `uint` in
/// the other.
pub open spec fn integer_keys_agree(a: Val, b: Val) -> bool {
    forall|k: Val, o: Val| #[trigger]
        has_key_within(a, k) && #[trigger] has_key_within(b, o) ==> other_integer(k) != Some(o)
}

/// Whether `t` is a timestamp somewhere in a value.
pub open spec fn has_time_within(v: Val, t: Instant) -> bool
    decreases v,
{
    match v {
        Val::Timestamp(u) => u == t,
        Val::List(s) => exists|i: int| 0 <= i < s.len() && has_time_within(#[trigger] s[i], t),
        Val::CelMap(m) => exists|i: int|
            0 <= i < m.len() && has_time_within((#[trigger] m[i]).1, t),
        Val::Optional(Some(p)) => has_time_within(*p, t),
        _ => false,
    }
}

/// Whether no timestamp in the one value lies in a leap second and has the count of one
/// in the other value that lies in none.
pub open spec fn leap_seconds_agree(a: Val, b: Val) -> bool {
    forall|t: Instant, u: Instant| #[trigger]
        has_time_within(a, t) && #[trigger] has_time_within(b, u) && t.nanos == u.nanos ==> t.leap
            == u.leap
}

/// Equal keys are the same key, unless they are one number as an `int` and as a
/// `uint`.
proof fn equal_keys_are_the_same(k: Val, o: Val)
    requires
        is_key(k),
        is_key(o),
        other_integer(k) != Some(o),
    ensures
        leaf_eq(k, o) == (k == o),
{
}

/// As many distinct keys, each of them found in the other entries, are all of the
/// other entries' keys.
proof fn found_keys_are_all(x: Seq<(Val, Val)>, y: Seq<(Val, Val)>, j: int)
    requires
        distinct_keys(x),
        distinct_keys(y),
        x.len() == y.len(),
        forall|i: int| 0 <= i < x.len() ==> 0 <= position(y, (#[trigger] x[i]).0) < y.len(),
        0 <= j < y.len(),
    ensures
        0 <= position(x, y[j].0) < x.len(),
{
    let places = Seq::new(x.len(), |i: int| position(y, x[i].0));
    assert(places.no_duplicates()) by {
        assert forall|i: int, h: int| 0 <= i < places.len() && 0 <= h < places.len() && i
            != h implies places[i] != places[h] by {
            lemma_position(y, x[i].0);
            lemma_position(y, x[h].0);
        }
    }
    places.unique_seq_to_set();
    let all = set_int_range(0, y.len() as int);
    lemma_int_range(0, y.len() as int);
    assert(places.to_set().subset_of(all)) by {
        assert forall|p: int| places.to_set().contains(p) implies all.contains(p) by {
            let i = choose|i: int| 0 <= i < places.len() && places[i] == p;
            assert(0 <= position(y, x[i].0) < y.len());
        }
    }
    lemma_subset_equality(places.to_set(), all);
    assert(all.contains(j));
    assert(places.to_set().contains(j));
    let i = choose|i: int| 0 <= i < places.len() && places[i] == j;
    lemma_position(y, x[i].0);
    assert(x[i].0 == y[j].0);
    lemma_position(x, y[j].0);
}

/// Leaves of the runtime are equal exactly when the values that they stand for are,
/// wherever no number is an `int` key in the one and a `uint` key in the other, and no
/// count of nanoseconds lies in a leap second in the one and in none in the other.
pub proof fn leaf_equality_is_value_equality(a: Val, b: Val)
    requires
        maps_are_valid(a),
        maps_are_valid(b),
        integer_keys_agree(a, b),
        leap_seconds_agree(a, b),
    ensures
        leaf_eq(a, b) == val_eq(a, b),
    decreases a,
{
    match (a, b) {
        (Val::List(x), Val::List(y)) => {
            assert forall|i: int| 0 <= i < x.len() && i < y.len() implies leaf_eq(
                #[trigger] x[i],
                #[trigger] y[i],
            ) == val_eq(x[i], y[i]) by {
                assert(decreases_to!(a => x));
                assert(decreases_to!(x => x[i]));
                assert(integer_keys_agree(x[i], y[i])) by {
                    assert forall|k: Val, o: Val| #[trigger]
                        has_key_within(x[i], k) && #[trigger] has_key_within(
                            y[i],
                            o,
                        ) implies other_integer(k) != Some(o) by {
                        assert(has_key_within(a, k));
                        assert(has_key_within(b, o));
                    }
                }
                assert(leap_seconds_agree(x[i], y[i])) by {
                    assert forall|t: Instant, u: Instant| #[trigger]
                        has_time_within(x[i], t) && #[trigger] has_time_within(y[i], u) && t.nanos
                            == u.nanos implies t.leap == u.leap by {
                        assert(has_time_within(a, t));
                        assert(has_time_within(b, u));
                    }
                }
                leaf_equality_is_value_equality(x[i], y[i]);
            }
        },
        (Val::CelMap(x), Val::CelMap(y)) => {
            assert forall|i: int, j: int| 0 <= i < x.len() && 0 <= j < y.len() implies leaf_eq(
                (#[trigger] x[i]).1,
                (#[trigger] y[j]).1,
            ) == val_eq(x[i].1, y[j].1) && leaf_eq(x[i].0, y[j].0) == (x[i].0 == y[j].0) by {
                assert(decreases_to!(a => x));
                assert(decreases_to!(x => x[i]));
                assert(decreases_to!(x[i] => x[i].1));
                assert(integer_keys_agree(x[i].1, y[j].1)) by {
                    assert forall|k: Val, o: Val| #[trigger]
                        has_key_within(x[i].1, k) && #[trigger] has_key_within(
                            y[j].1,
                            o,
                        ) implies other_integer(k) != Some(o) by {
                        assert(has_key_within(a, k));
                        assert(has_key_within(b, o));
                    }
                }
                assert(leap_seconds_agree(x[i].1, y[j].1)) by {
                    assert forall|t: Instant, u: Instant| #[trigger]
                        has_time_within(x[i].1, t) && #[trigger] has_time_within(y[j].1, u) && t.nanos
                            == u.nanos implies t.leap == u.leap by {
                        assert(has_time_within(a, t));
                        assert(has_time_within(b, u));
                    }
                }
                leaf_equality_is_value_equality(x[i].1, y[j].1);
                assert(has_key_within(a, x[i].0));
                assert(has_key_within(b, y[j].0));
                equal_keys_are_the_same(x[i].0, y[j].0);
            }
            leaf_maps_agree(x, y);
        },
        (Val::Optional(Some(p)), Val::Optional(Some(q))) => {
            assert(decreases_to!(a => p));
            assert(integer_keys_agree(*p, *q)) by {
                assert forall|k: Val, o: Val| #[trigger]
                    has_key_within(*p, k) && #[trigger] has_key_within(
                        *q,
                        o,
                    ) implies other_integer(k) != Some(o) by {
                    assert(has_key_within(a, k));
                    assert(has_key_within(b, o));
                }
            }
            assert(leap_seconds_agree(*p, *q)) by {
                assert forall|t: Instant, u: Instant| #[trigger]
                    has_time_within(*p, t) && #[trigger] has_time_within(*q, u) && t.nanos
                        == u.nanos implies t.leap == u.leap by {
                    assert(has_time_within(a, t));
                    assert(has_time_within(b, u));
                }
            }
            leaf_equality_is_value_equality(*p, *q);
        },
        (Val::Timestamp(t), Val::Timestamp(u)) => {
            assert(has_time_within(a, t));
            assert(has_time_within(b, u));
        },
        _ => {},
    }
}

/// Maps whose entries compare alike either way compare alike.
proof fn leaf_maps_agree(x: Seq<(Val, Val)>, y: Seq<(Val, Val)>)
    requires
        distinct_keys(x),
        distinct_keys(y),
        forall|i: int, j: int|
            0 <= i < x.len() && 0 <= j < y.len() ==> leaf_eq((#[trigger] x[i]).1, (#[trigger] y[j]).1)
                == val_eq(x[i].1, y[j].1) && leaf_eq(x[i].0, y[j].0) == (x[i].0 == y[j].0),
    ensures
        leaf_eq(Val::CelMap(x), Val::CelMap(y)) == val_eq(Val::CelMap(x), Val::CelMap(y)),
{
    assert forall|i: int| 0 <= i < x.len() implies leaf_found(#[trigger] x[i], y) == ({
        let p = position(y, x[i].0);
        0 <= p < y.len() && val_eq(x[i].1, y[p].1)
    }) by {
        lemma_position(y, x[i].0);
        let p = position(y, x[i].0);
        if 0 <= p < y.len() && val_eq(x[i].1, y[p].1) {
            assert(leaf_eq(x[i].0, y[p].0) && leaf_eq(x[i].1, y[p].1));
        }
        if leaf_found(x[i], y) {
            let j = choose|j: int|
                0 <= j < y.len() && leaf_eq(x[i].0, (#[trigger] y[j]).0) && leaf_eq(x[i].1, y[j].1);
            assert(x[i].0 == y[j].0);
        }
    }
    if leaf_eq(Val::CelMap(x), Val::CelMap(y)) {
        assert forall|j: int| 0 <= j < y.len() implies ({
            let p = position(x, (#[trigger] y[j]).0);
            0 <= p < x.len() && val_eq(x[p].1, y[j].1)
        }) by {
            assert forall|i: int| 0 <= i < x.len() implies 0 <= position(y, (#[trigger] x[i]).0)
                < y.len() by {
                assert(leaf_found(x[i], y));
            }
            found_keys_are_all(x, y, j);
            let p = position(x, y[j].0);
            lemma_position(x, y[j].0);
            lemma_position(y, x[p].0);
            assert(leaf_found(x[p], y));
        }
        assert(val_eq(Val::CelMap(x), Val::CelMap(y)));
    }
    if val_eq(Val::CelMap(x), Val::CelMap(y)) {
        assert forall|i: int| 0 <= i < x.len() implies leaf_found(#[trigger] x[i], y) by {
            let p = position(y, x[i].0);
            assert(0 <= p < y.len() && val_eq(x[i].1, y[p].1));
        }
    }
}

/// Timestamps that lie in no leap second are ordered by their nanoseconds, whatever
/// their offsets.
pub proof fn timestamps_are_ordered_by_their_nanoseconds(t: Instant, u: Instant)
    requires
        !t.leap,
        !u.leap,
    ensures
        val_order(Val::Timestamp(t), Val::Timestamp(u)) == Some(int_order(t.nanos, u.nanos)),
        val_eq(Val::Timestamp(t), Val::Timestamp(u)) == (t.nanos == u.nanos),
{
}

/// A timestamp in a leap second comes after every other one of the second before, and
/// before every one of the second after.
pub proof fn a_leap_second_lies_between_its_neighbours(t: Instant, u: Instant)
    requires
        t.leap,
        t.frac() < 2_000_000_000,
        !u.leap,
    ensures
        val_order(Val::Timestamp(t), Val::Timestamp(u)) == Some(
            if u.secs() <= t.secs() {
                Order::Greater
            } else {
                Order::Less
            },
        ),
{
}

} // verus!
