//! The operators.

use crate::double::negation_is_an_involution;
use crate::model::{
    binary, int_arith, native, negate, numeric, quotient, remainder, uint_arith, val_len, BinOp,
    ErrV, OutV, Val,
};
use crate::time::{in_duration_range, in_timestamp_limits, Instant};
use vstd::prelude::*;
use vstd::utf8::encode_utf8;

verus! {

/// The value of an operator that gives one.
pub open spec fn gives(o: OutV, v: Val) -> bool {
    o == OutV::Done(Ok(v))
}

/// Quotient times divisor and remainder make up the dividend; the remainder is
/// smaller than the divisor and has the sign of the dividend.
pub proof fn quotient_and_remainder_make_the_dividend(l: i64, r: i64, q: i64, m: i64)
    requires
        int_arith(BinOp::Div, l, r) == Ok::<Val, ErrV>(Val::Int(q)),
        int_arith(BinOp::Rem, l, r) == Ok::<Val, ErrV>(Val::Int(m)),
    ensures
        l == q * r + m,
        -(if r < 0 {
            -r
        } else {
            r as int
        }) < m < (if r < 0 {
            -r
        } else {
            r as int
        }),
        m > 0 ==> l > 0,
        m < 0 ==> l < 0,
{
    let a: int = if l < 0 {
        -l
    } else {
        l as int
    };
    let b: int = if r < 0 {
        -r
    } else {
        r as int
    };
    assert(a == b * (a / b) + a % b && 0 <= a % b < b) by (nonlinear_arith)
        requires
            b > 0,
    ;
    assert(quotient(l as int, r as int) == q);
    assert(remainder(l as int, r as int) == m) by {
        assert(-b < remainder(l as int, r as int) < b);
    }
    let k = a / b;
    assert(q * r == b * k || q * r == -(b * k)) by (nonlinear_arith)
        requires
            q == k || q == -k,
            r == b || r == -b,
    ;
    assert((l < 0) == (r < 0) ==> q * r == r * k) by (nonlinear_arith)
        requires
            (l < 0) == (r < 0) ==> q == k,
    ;
    assert((l < 0) != (r < 0) ==> q * r == -(r * k)) by (nonlinear_arith)
        requires
            (l < 0) != (r < 0) ==> q == -k,
    ;
    assert(r < 0 ==> r * k == -(b * k)) by (nonlinear_arith)
        requires
            r < 0 ==> r == -b,
    ;
}

/// The same of unsigned division.
pub proof fn unsigned_quotient_and_remainder_make_the_dividend(l: u64, r: u64, q: u64, m: u64)
    requires
        uint_arith(BinOp::Div, l, r) == Ok::<Val, ErrV>(Val::UInt(q)),
        uint_arith(BinOp::Rem, l, r) == Ok::<Val, ErrV>(Val::UInt(m)),
    ensures
        l == q * r + m,
        m < r,
{
    let (a, b) = (l as int, r as int);
    assert(a == b * (a / b) + a % b && 0 <= a % b && a % b < b && 0 <= a / b && a / b <= a)
        by (nonlinear_arith)
        requires
            b > 0,
            a >= 0,
    ;
    assert(q * r == r * q) by (nonlinear_arith);
}

/// Unary minus undoes itself.
pub proof fn negation_undoes_itself(v: Val, w: Val)
    requires
        negate(v) == Ok::<Val, ErrV>(w),
    ensures
        negate(w) == Ok::<Val, ErrV>(v),
{
    match v {
        Val::Double(d) => negation_is_an_involution(d),
        _ => {},
    }
}

/// Whether a value is one that `-` undoes a `+` of: an integer, a duration, or a
/// timestamp that arithmetic may produce, outside any leap second.
pub open spec fn is_shiftable(v: Val) -> bool {
    match v {
        Val::Int(_) | Val::UInt(_) => true,
        Val::Duration(d) => in_duration_range(d),
        Val::Timestamp(t) => in_timestamp_limits(t) && !t.leap,
        _ => false,
    }
}

/// What was added can be taken away again, and gives back what there was.
pub proof fn subtraction_undoes_addition(l: Val, r: Val, sum: Val)
    requires
        is_shiftable(l),
        !(r is Timestamp),
        gives(binary(BinOp::Add, l, r), sum),
    ensures
        gives(binary(BinOp::Sub, sum, r), l),
{
}

/// A timestamp is another one moved by their difference, up to the offset that it
/// is written with, where neither lies in a leap second.
pub proof fn a_timestamp_is_another_plus_their_difference(t: Instant, u: Instant)
    requires
        in_timestamp_limits(t),
        !t.leap,
        !u.leap,
    ensures
        ({
            let d = t.nanos - u.nanos;
            &&& gives(binary(BinOp::Sub, Val::Timestamp(t), Val::Timestamp(u)), Val::Duration(d))
            &&& gives(
                binary(BinOp::Add, Val::Timestamp(u), Val::Duration(d)),
                Val::Timestamp(Instant { offset: u.offset, ..t }),
            )
        }),
{
}

/// A duration plus a timestamp is the timestamp plus the duration, errors included.
pub proof fn durations_and_timestamps_add_either_way(d: int, t: Instant)
    ensures
        binary(BinOp::Add, Val::Duration(d), Val::Timestamp(t)) == binary(
            BinOp::Add,
            Val::Timestamp(t),
            Val::Duration(d),
        ),
{
}

/// Numbers add and multiply either way.
pub proof fn integers_commute(op: BinOp, l: Val, r: Val, v: Val)
    requires
        op == BinOp::Add || op == BinOp::Mul,
        l is Int || l is UInt,
        gives(binary(op, l, r), v),
    ensures
        gives(binary(op, r, l), v),
{
    match (l, r) {
        (Val::Int(x), Val::Int(y)) => {
            assert(x * y == y * x) by (nonlinear_arith);
        },
        (Val::UInt(x), Val::UInt(y)) => {
            assert(x * y == y * x) by (nonlinear_arith);
        },
        _ => {},
    }
}

/// The UTF-8 of a concatenation is the concatenation of the UTF-8.
proof fn encoding_concatenates(x: Seq<char>, y: Seq<char>)
    ensures
        encode_utf8(x + y) == encode_utf8(x) + encode_utf8(y),
    decreases x.len(),
{
    if x.len() == 0 {
        assert(x + y =~= y);
        assert(encode_utf8(x) + encode_utf8(y) =~= encode_utf8(y));
    } else {
        assert((x + y).drop_first() =~= x.drop_first() + y);
        encoding_concatenates(x.drop_first(), y);
        assert(encode_utf8(x + y) =~= encode_utf8(x) + encode_utf8(y));
    }
}

/// What `+` makes of two lists, strings or byte strings is as long as both together.
pub proof fn lengths_add(l: Val, r: Val, sum: Val)
    requires
        l is List || l is Str || l is Bytes,
        gives(binary(BinOp::Add, l, r), sum),
    ensures
        val_len(sum) == Some(val_len(l)->0 + val_len(r)->0),
{
    match (l, r) {
        (Val::Str(x), Val::Str(y)) => encoding_concatenates(x, y),
        _ => {},
    }
}

/// `(a + b) + c` is `a + (b + c)` on lists, strings and byte strings.
pub proof fn concatenation_is_associative(a: Val, b: Val, c: Val, ab: Val, bc: Val)
    requires
        a is List || a is Str || a is Bytes,
        gives(binary(BinOp::Add, a, b), ab),
        gives(binary(BinOp::Add, b, c), bc),
    ensures
        binary(BinOp::Add, ab, c) == binary(BinOp::Add, a, bc),
{
    match (a, b, c) {
        (Val::List(x), Val::List(y), Val::List(z)) => {
            assert((x + y) + z =~= x + (y + z));
        },
        (Val::Str(x), Val::Str(y), Val::Str(z)) => {
            assert((x + y) + z =~= x + (y + z));
        },
        (Val::Bytes(x), Val::Bytes(y), Val::Bytes(z)) => {
            assert((x + y) + z =~= x + (y + z));
        },
        _ => {},
    }
}

/// An operator gives the same value in an expression as on values, and is handed
/// over on the same doubles: only what a refusal is called differs.
pub proof fn expressions_and_values_compute_alike(op: BinOp, l: Val, r: Val)
    ensures
        match native(op, l, r) {
            OutV::Done(Err(_)) => binary(op, l, r) matches OutV::Done(Err(_)),
            other => binary(op, l, r) == other,
        },
{
}

/// The numeric operators are the operators on the pairs that they take.
pub proof fn numeric_operators_are_the_operators(op: BinOp, l: Val, r: Val)
    requires
        numeric(op, l, r) is Some,
    ensures
        numeric(op, l, r) == Some(binary(op, l, r)),
{
}

} // verus!
