//! What comes first.

use crate::double::{
    double_of_int, double_of_nat, is_nan, magnitude, negated, rank, rounded_shift, top_bit, Order,
    BINADE, INFINITY, SIGN_BIT,
};
use crate::model::{bytes_order, compare, val_eq, CmpOp, ErrV, Val};
use vstd::arithmetic::power2::{lemma_pow2_adds, lemma_pow2_pos, lemma_pow2_unfold, pow2};
use vstd::prelude::*;
use vstd::utf8::{encode_utf8, encode_utf8_decode_utf8};

verus! {

/// What is measured of a value that a whole number measures.
#[derive(PartialEq, Eq, Structural)]
pub enum Measure {
    /// An `int` and a `uint` are numbers of one line.
    Number,
    /// The nanoseconds of a duration.
    Length,
    /// The nanoseconds since the Unix epoch of a timestamp that lies in no leap second.
    Instant,
    /// `false` is 0 and `true` is 1.
    Truth,
}

/// What is measured of a value, if it is something that a number says.
pub open spec fn measure_of(v: Val) -> Option<Measure> {
    match v {
        Val::Int(_) | Val::UInt(_) => Some(Measure::Number),
        Val::Duration(_) => Some(Measure::Length),
        Val::Timestamp(t) => if t.leap {
            None
        } else {
            Some(Measure::Instant)
        },
        Val::Bool(_) => Some(Measure::Truth),
        _ => None,
    }
}

/// The number that measures a value.
pub open spec fn amount(v: Val) -> int {
    match v {
        Val::Int(i) => i as int,
        Val::UInt(u) => u as int,
        Val::Duration(d) => d,
        Val::Timestamp(t) => t.nanos,
        Val::Bool(true) => 1,
        _ => 0,
    }
}

/// Whether the four ordering operators answer as the numbers `a` and `b` are ordered.
pub open spec fn ordered_as(x: Val, y: Val, a: int, b: int) -> bool {
    &&& compare(CmpOp::Less, x, y) == Ok::<Val, ErrV>(Val::Bool(a < b))
    &&& compare(CmpOp::LessEquals, x, y) == Ok::<Val, ErrV>(Val::Bool(a <= b))
    &&& compare(CmpOp::Greater, x, y) == Ok::<Val, ErrV>(Val::Bool(a > b))
    &&& compare(CmpOp::GreaterEquals, x, y) == Ok::<Val, ErrV>(Val::Bool(a >= b))
}

/// Numbers, durations, timestamps and booleans are ordered by what measures them, and
/// are equal where it is the same; an `int` and a `uint` are measured alike.
pub proof fn values_are_ordered_by_their_measure(x: Val, y: Val)
    requires
        measure_of(x) is Some,
        measure_of(x) == measure_of(y),
    ensures
        ordered_as(x, y, amount(x), amount(y)),
        val_eq(x, y) == (amount(x) == amount(y)),
{
}

/// Whether `a` comes before `b` in the order of a dictionary: it is a part of `b` that
/// `b` begins with, or it has the smaller byte where they first differ.
pub open spec fn precedes(a: Seq<u8>, b: Seq<u8>) -> bool {
    exists|i: int| #[trigger] parts_at(a, b, i)
}

/// Whether `a` and `b` agree before `i`, and `a` ends there or has the smaller byte.
pub open spec fn parts_at(a: Seq<u8>, b: Seq<u8>, i: int) -> bool {
    &&& 0 <= i <= a.len()
    &&& i < b.len()
    &&& forall|j: int| 0 <= j < i ==> a[j] == b[j]
    &&& i == a.len() || a[i] < b[i]
}

proof fn lemma_parts_step(a: Seq<u8>, b: Seq<u8>)
    requires
        a.len() > 0,
        b.len() > 0,
        a[0] == b[0],
    ensures
        precedes(a, b) == precedes(a.drop_first(), b.drop_first()),
{
    let (x, y) = (a.drop_first(), b.drop_first());
    if precedes(a, b) {
        let i = choose|i: int| parts_at(a, b, i);
        assert forall|j: int| 0 <= j < i - 1 implies x[j] == y[j] by {
            assert(a[j + 1] == b[j + 1]);
        }
        assert(parts_at(x, y, i - 1));
    }
    if precedes(x, y) {
        let i = choose|i: int| parts_at(x, y, i);
        assert forall|j: int| 0 <= j < i + 1 implies a[j] == b[j] by {
            if j > 0 {
                assert(x[j - 1] == y[j - 1]);
            }
        }
        assert(parts_at(a, b, i + 1));
    }
}

pub(crate) proof fn lemma_bytes_order(a: Seq<u8>, b: Seq<u8>)
    ensures
        (bytes_order(a, b) == Order::Less) == precedes(a, b),
        (bytes_order(a, b) == Order::Greater) == precedes(b, a),
        (bytes_order(a, b) == Order::Equal) == (a == b),
    decreases a.len(),
{
    if a.len() == 0 || b.len() == 0 {
        if a.len() < b.len() {
            assert(parts_at(a, b, 0));
        } else if b.len() < a.len() {
            assert(parts_at(b, a, 0));
        } else {
            assert(a =~= b);
        }
    } else if a[0] == b[0] {
        let (x, y) = (a.drop_first(), b.drop_first());
        lemma_bytes_order(x, y);
        lemma_parts_step(a, b);
        lemma_parts_step(b, a);
        if x == y {
            assert(a =~= seq![a[0]] + x);
            assert(b =~= seq![b[0]] + y);
        }
    } else {
        assert(parts_at(a, b, 0) == (a[0] < b[0]));
        assert(parts_at(b, a, 0) == (b[0] < a[0]));
        if precedes(a, b) {
            let i = choose|i: int| parts_at(a, b, i);
            assert(i == 0);
        }
        if precedes(b, a) {
            let i = choose|i: int| parts_at(b, a, i);
            assert(i == 0);
        }
    }
}

/// Whether the four ordering operators answer as in a dictionary.
pub open spec fn ordered_in_dictionary(x: Val, y: Val, a: Seq<u8>, b: Seq<u8>) -> bool {
    &&& compare(CmpOp::Less, x, y) == Ok::<Val, ErrV>(Val::Bool(precedes(a, b)))
    &&& compare(CmpOp::LessEquals, x, y) == Ok::<Val, ErrV>(Val::Bool(precedes(a, b) || a == b))
    &&& compare(CmpOp::Greater, x, y) == Ok::<Val, ErrV>(Val::Bool(precedes(b, a)))
    &&& compare(CmpOp::GreaterEquals, x, y) == Ok::<Val, ErrV>(Val::Bool(precedes(b, a) || a == b))
}

/// Byte strings are ordered as in a dictionary, and equal where they are the same bytes.
pub proof fn byte_strings_are_ordered_as_in_a_dictionary(a: Seq<u8>, b: Seq<u8>)
    ensures
        ordered_in_dictionary(Val::Bytes(a), Val::Bytes(b), a, b),
        val_eq(Val::Bytes(a), Val::Bytes(b)) == (a == b),
{
    lemma_bytes_order(a, b);
}

/// Strings are ordered as in a dictionary of their UTF-8, and equal where they are the
/// same characters.
pub proof fn strings_are_ordered_by_their_bytes(a: Seq<char>, b: Seq<char>)
    ensures
        ordered_in_dictionary(Val::Str(a), Val::Str(b), encode_utf8(a), encode_utf8(b)),
        val_eq(Val::Str(a), Val::Str(b)) == (a == b),
        (encode_utf8(a) == encode_utf8(b)) == (a == b),
{
    lemma_bytes_order(encode_utf8(a), encode_utf8(b));
    encode_utf8_decode_utf8(a);
    encode_utf8_decode_utf8(b);
}

/// The kinds of value between which there is an order.
#[derive(PartialEq, Eq, Structural)]
pub enum Kind {
    Number,
    Text,
    Bytes,
    Truth,
    Length,
    Instant,
}

/// The kind that a value is ordered within.
pub open spec fn kind_of(v: Val) -> Option<Kind> {
    match v {
        Val::Int(_) | Val::UInt(_) | Val::Double(_) => Some(Kind::Number),
        Val::Str(_) => Some(Kind::Text),
        Val::Bytes(_) => Some(Kind::Bytes),
        Val::Bool(_) => Some(Kind::Truth),
        Val::Duration(_) => Some(Kind::Length),
        Val::Timestamp(_) => Some(Kind::Instant),
        _ => None,
    }
}

/// Whether a value is the double that is not a number.
pub open spec fn is_not_a_number(v: Val) -> bool {
    v matches Val::Double(d) && is_nan(d)
}

/// The ordering operators answer exactly where both operands are of one kind and none is
/// not a number; everything else has no such overload.
pub proof fn only_values_of_one_kind_are_ordered(op: CmpOp, x: Val, y: Val)
    ensures
        compare(op, x, y) is Ok <==> kind_of(x) is Some && kind_of(x) == kind_of(y)
            && !is_not_a_number(x) && !is_not_a_number(y),
        compare(op, x, y) matches Ok(v) ==> v is Bool,
        compare(op, x, y) is Err ==> compare(op, x, y) == Err::<Val, ErrV>(ErrV::NoSuchOverload),
{
    lemma_integers_are_numbers(x);
    lemma_integers_are_numbers(y);
}

// ---------------------------------------------------------------------------
// Doubles.

/// The number that a finite double without its sign stands for, in units of the smallest
/// one.
pub open spec fn units(m: int) -> nat {
    if m < BINADE {
        m as nat
    } else {
        ((BINADE + m % (BINADE as int)) * pow2((m / (BINADE as int) - 1) as nat)) as nat
    }
}

/// The number that a finite double stands for, in units of the smallest positive one.
pub open spec fn double_value(bits: u64) -> int {
    if bits >= SIGN_BIT {
        -(units(bits - SIGN_BIT) as int)
    } else {
        units(bits as int) as int
    }
}

/// Whether a double is finite.
pub open spec fn is_finite(bits: u64) -> bool {
    magnitude(bits) < INFINITY
}

proof fn lemma_units_grow(m: int, k: int)
    requires
        0 <= m < k,
    ensures
        units(m) < units(k),
{
    let b = BINADE as int;
    if k < b {
    } else {
        let (e, f) = (k / b, k % b);
        lemma_pow2_pos((e - 1) as nat);
        let p = pow2((e - 1) as nat) as int;
        assert(units(k) == (b + f) * p) by {
            assert((b + f) * p >= 0) by (nonlinear_arith)
                requires
                    b + f >= 0,
                    p >= 0,
            ;
        }
        if m < b {
            assert((b + f) * p >= b) by (nonlinear_arith)
                requires
                    f >= 0,
                    p >= 1,
                    b >= 0,
            ;
        } else {
            let (g, h) = (m / b, m % b);
            lemma_pow2_pos((g - 1) as nat);
            let q = pow2((g - 1) as nat) as int;
            assert(units(m) == (b + h) * q) by {
                assert((b + h) * q >= 0) by (nonlinear_arith)
                    requires
                        b + h >= 0,
                        q >= 0,
                ;
            }
            if g == e {
                assert((b + h) * q < (b + f) * p) by (nonlinear_arith)
                    requires
                        h < f,
                        p == q,
                        p >= 1,
                ;
            } else {
                lemma_pow2_unfold(g as nat);
                lemma_pow2_adds(g as nat, (e - 1 - g) as nat);
                lemma_pow2_pos((e - 1 - g) as nat);
                let d = pow2((e - 1 - g) as nat) as int;
                assert(pow2(g as nat) == 2 * q);
                assert(p == 2 * q * d);
                assert((b + h) * q < 2 * b * q) by (nonlinear_arith)
                    requires
                        h < b,
                        q >= 1,
                ;
                assert(2 * b * q <= b * p) by (nonlinear_arith)
                    requires
                        p == 2 * q * d,
                        d >= 1,
                        q >= 1,
                        b >= 0,
                ;
                assert(b * p <= (b + f) * p) by (nonlinear_arith)
                    requires
                        f >= 0,
                        p >= 0,
                ;
            }
        }
    }
}

pub(crate) proof fn lemma_values_follow_ranks(a: u64, b: u64)
    ensures
        (rank(a) < rank(b)) == (double_value(a) < double_value(b)),
        (rank(a) == rank(b)) == (double_value(a) == double_value(b)),
{
    let (m, k) = (magnitude(a), magnitude(b));
    if m < k {
        lemma_units_grow(m, k);
    } else if k < m {
        lemma_units_grow(k, m);
    }
    if m > 0 {
        lemma_units_grow(0, m);
    }
    if k > 0 {
        lemma_units_grow(0, k);
    }
}

/// Finite doubles are ordered by the numbers that they stand for. Positive infinity
/// comes after them all and negative infinity before them.
pub proof fn doubles_are_ordered_by_their_numbers(a: u64, b: u64)
    requires
        is_finite(a),
        is_finite(b),
    ensures
        ordered_as(Val::Double(a), Val::Double(b), double_value(a), double_value(b)),
        val_eq(Val::Double(a), Val::Double(b)) == (double_value(a) == double_value(b)),
        ordered_as(Val::Double(a), Val::Double(INFINITY), 0, 1),
        ordered_as(Val::Double(a), Val::Double(negated(INFINITY)), 1, 0),
        ordered_as(Val::Double(INFINITY), Val::Double(INFINITY), 0, 0),
        ordered_as(Val::Double(negated(INFINITY)), Val::Double(INFINITY), 0, 1),
{
    lemma_values_follow_ranks(a, b);
}

proof fn lemma_top_bit_bounds(n: nat)
    requires
        n > 0,
    ensures
        pow2(top_bit(n)) <= n < 2 * pow2(top_bit(n)),
    decreases n,
{
    vstd::arithmetic::power2::lemma2_to64();
    if n >= 2 {
        lemma_top_bit_bounds(n / 2);
        lemma_pow2_unfold(top_bit(n));
    }
}

/// The significand of the double nearest to a whole number.
spec fn significand_of(n: nat) -> nat {
    let e = top_bit(n);
    if e <= 52 {
        n * pow2((52 - e) as nat)
    } else {
        rounded_shift(n, (e - 52) as nat)
    }
}

proof fn lemma_significand(n: nat)
    requires
        0 < n,
    ensures
        BINADE <= significand_of(n) <= 2 * BINADE,
        top_bit(n) <= 52 ==> significand_of(n) < 2 * BINADE,
        top_bit(n) > 52 ==> {
            let p = pow2((top_bit(n) - 52) as nat) as int;
            &&& p >= 2
            &&& -p <= 2 * (significand_of(n) * p - n) <= p
            &&& 2 * (significand_of(n) * p - n) == p || 2 * (significand_of(n) * p - n) == -p
                ==> significand_of(n) % 2 == 0
        },
{
    let e = top_bit(n);
    lemma_top_bit_bounds(n);
    vstd::arithmetic::power2::lemma2_to64();
    vstd::arithmetic::power2::lemma2_to64_rest();
    if e <= 52 {
        let t = pow2((52 - e) as nat);
        lemma_pow2_adds(e, (52 - e) as nat);
        lemma_pow2_pos((52 - e) as nat);
        let p = pow2(e);
        assert(p * t == BINADE);
        assert(BINADE <= n * t < 2 * BINADE) by (nonlinear_arith)
            requires
                p <= n < 2 * p,
                p * t == BINADE,
                t > 0,
        ;
    } else {
        let k = (e - 52) as nat;
        let d = pow2(k) as int;
        lemma_pow2_pos(k);
        lemma_pow2_unfold(k);
        lemma_pow2_pos((k - 1) as nat);
        lemma_pow2_adds(52, k);
        let b = BINADE as int;
        let p = pow2(e) as int;
        assert(p == b * d);
        let q = n as int / d;
        let r = n as int % d;
        assert(n == q * d + r && 0 <= r < d) by (nonlinear_arith)
            requires
                d > 0,
                q == n as int / d,
                r == n as int % d,
        ;
        assert(b <= q < 2 * b) by (nonlinear_arith)
            requires
                b * d <= n < 2 * (b * d),
                n == q * d + r,
                0 <= r < d,
        ;
        assert((q + 1) * d == q * d + d) by (nonlinear_arith);
    }
}

/// What a whole number is in units of the smallest positive double, as the double nearest
/// to it has it.
proof fn lemma_double_of_nat(n: nat)
    requires
        0 < n,
        top_bit(n) < 64,
    ensures
        0 < double_of_nat(n) < INFINITY,
        double_of_nat(n) >= (top_bit(n) + 1023) * BINADE,
        units(double_of_nat(n)) == significand_of(n) * pow2(top_bit(n) + 1022),
{
    let e = top_bit(n) as int;
    let s = significand_of(n) as int;
    let b = BINADE as int;
    lemma_significand(n);
    let m = double_of_nat(n);
    assert(m == (e + 1022) * b + s);
    if s < 2 * b {
        assert(m / b == e + 1023 && m % b == s - b) by (nonlinear_arith)
            requires
                m == (e + 1022) * b + s,
                b <= s < 2 * b,
                b > 0,
        ;
    } else {
        assert(m / b == e + 1024 && m % b == 0) by (nonlinear_arith)
            requires
                m == (e + 1022) * b + s,
                s == 2 * b,
                b > 0,
        ;
        lemma_pow2_unfold((e + 1023) as nat);
        let p = pow2((e + 1022) as nat) as int;
        assert(b * (2 * p) == 2 * b * p) by (nonlinear_arith);
    }
    let p = pow2((e + 1022) as nat) as int;
    lemma_pow2_pos((e + 1022) as nat);
    assert(s * p >= 0) by (nonlinear_arith)
        requires
            s >= 0,
            p >= 0,
    ;
}

proof fn lemma_top_bit_is_small(n: nat)
    requires
        0 < n < 0x1_0000_0000_0000_0000,
    ensures
        top_bit(n) < 64,
{
    lemma_top_bit_bounds(n);
    vstd::arithmetic::power2::lemma2_to64();
    vstd::arithmetic::power2::lemma2_to64_rest();
    if top_bit(n) >= 64 {
        if top_bit(n) > 64 {
            vstd::arithmetic::power2::lemma_pow2_strictly_increases(64, top_bit(n));
        }
    }
}

/// How far a number is from another.
pub open spec fn distance(a: int, b: int) -> int {
    if a < b {
        b - a
    } else {
        a - b
    }
}

/// A double that is at least as large as another of one binade is a whole number of the
/// steps of that binade.
proof fn lemma_steps(m: int, e: nat) -> (t: int)
    requires
        m >= (e + 1023) * BINADE,
    ensures
        units(m) == t * pow2(e + 1022),
{
    let b = BINADE as int;
    let (x, f) = (m / b, m % b);
    assert(x >= e + 1023) by (nonlinear_arith)
        requires
            m >= (e + 1023) * b,
            b > 0,
            x == m / b,
    ;
    let k = (x - 1 - (e + 1022)) as nat;
    lemma_pow2_adds(k, e + 1022);
    lemma_pow2_pos((x - 1) as nat);
    let (p, d) = (pow2(e + 1022) as int, pow2(k) as int);
    assert(m >= b) by (nonlinear_arith)
        requires
            m >= (e + 1023) * b,
            b > 0,
            e >= 0,
    ;
    let w = pow2((x - 1) as nat) as int;
    assert(w == d * p);
    assert((b + f) * w >= 0) by (nonlinear_arith)
        requires
            b + f >= 0,
            w >= 0,
    ;
    assert((b + f) * (d * p) == ((b + f) * d) * p) by (nonlinear_arith);
    (b + f) * d
}

proof fn lemma_nearest_nat(n: nat, d: u64)
    requires
        0 < n < 0x1_0000_0000_0000_0000,
        is_finite(d),
    ensures
        distance(units(double_of_nat(n)) as int, (n * pow2(1074)) as int) <= distance(
            double_value(d),
            (n * pow2(1074)) as int,
        ),
        n <= 0x20_0000_0000_0000 ==> units(double_of_nat(n)) == n * pow2(1074),
        distance(units(double_of_nat(n)) as int, (n * pow2(1074)) as int) == distance(
            double_value(d),
            (n * pow2(1074)) as int,
        ) && units(double_of_nat(n)) != double_value(d) ==> double_of_nat(n) % 2 == 0,
{
    lemma_top_bit_is_small(n);
    lemma_double_of_nat(n);
    lemma_significand(n);
    lemma_top_bit_bounds(n);
    let e = top_bit(n);
    let s = significand_of(n) as int;
    let b = BINADE as int;
    let u = pow2(e + 1022) as int;
    let one = pow2(1074) as int;
    let v = s * u;
    let want = n * one;
    lemma_pow2_pos(e + 1022);
    lemma_pow2_pos(1074);
    vstd::arithmetic::power2::lemma2_to64();
    vstd::arithmetic::power2::lemma2_to64_rest();
    assert(want >= b * u) by {
        lemma_pow2_adds(e, 1074);
        lemma_pow2_adds(52, e + 1022);
        let p = pow2(e) as int;
        assert(p * one == b * u);
        assert(n * one >= p * one) by (nonlinear_arith)
            requires
                n >= p,
                one >= 0,
        ;
    }
    if e <= 52 {
        let t = pow2((52 - e) as nat) as int;
        lemma_pow2_adds((52 - e) as nat, e + 1022);
        assert((n * t) * u == n * (t * u)) by (nonlinear_arith);
        assert(v == want);
    } else {
        let k = (e - 52) as nat;
        let p = pow2(k) as int;
        lemma_pow2_adds(k, 1074);
        assert(u == p * one);
        assert(v - want == (s * p - n) * one) by (nonlinear_arith)
            requires
                v == s * u,
                want == n * one,
                u == p * one,
        ;
        let off = s * p - n;
        assert(-u <= 2 * (off * one) <= u) by (nonlinear_arith)
            requires
                -p <= 2 * off <= p,
                u == p * one,
                one >= 0,
        ;
        if n <= 0x20_0000_0000_0000 {
            // Only the number at the start of the next binade is as large.
            assert(pow2(53) == 0x20_0000_0000_0000);
            if e > 53 {
                vstd::arithmetic::power2::lemma_pow2_strictly_increases(53, e);
            }
            assert(e == 53 && n == pow2(53));
            assert(k == 1 && p == 2);
            assert(s * p == 2 * s) by (nonlinear_arith)
                requires
                    p == 2,
            ;
            assert(off == 2 * (s - 0x10_0000_0000_0000));
            assert(off == 0);
            assert(off * one == 0) by (nonlinear_arith)
                requires
                    off == 0,
            ;
        }
    }
    // Any other double is a whole number of steps, or lies below the binade.
    let m = magnitude(d);
    let least = (e + 1023) * BINADE;
    if d < SIGN_BIT && m >= least {
        let t = lemma_steps(m, e);
        assert(t * u - v == (t - s) * u) by (nonlinear_arith)
            requires
                v == s * u,
        ;
        if t != s {
            assert((t - s) * u >= u || (t - s) * u <= -u) by (nonlinear_arith)
                requires
                    t != s,
                    u > 0,
            ;
            if e > 52 && (2 * (v - want) == u || 2 * (v - want) == -u) {
                let p = pow2((e - 52) as nat) as int;
                lemma_pow2_adds((e - 52) as nat, 1074);
                let off = s * p - n;
                assert(v - want == off * one) by (nonlinear_arith)
                    requires
                        v == s * u,
                        want == n * one,
                        u == p * one,
                        off == s * p - n,
                ;
                assert(2 * off == p || 2 * off == -p) by (nonlinear_arith)
                    requires
                        2 * (off * one) == p * one || 2 * (off * one) == -(p * one),
                        one > 0,
                ;
                assert(double_of_nat(n) == (e + 1022) * BINADE + s);
                assert((e + 1022) * BINADE == 2 * ((e + 1022) * (BINADE / 2))) by (nonlinear_arith)
                    requires
                        BINADE == 2 * (BINADE / 2),
                ;
            }
        }
    } else {
        assert(units(least) == b * u) by {
            assert(least / b == e + 1023 && least % b == 0) by (nonlinear_arith)
                requires
                    least == (e + 1023) * b,
                    b > 0,
            ;
            assert(least >= b) by (nonlinear_arith)
                requires
                    least == (e + 1023) * b,
                    b > 0,
                    e >= 0,
            ;
            assert(b * u >= 0) by (nonlinear_arith)
                requires
                    b >= 0,
                    u >= 0,
            ;
        }
        if d < SIGN_BIT {
            lemma_units_grow(m, least);
        }
        assert(double_value(d) <= b * u) by {
            assert(b * u >= 0) by (nonlinear_arith)
                requires
                    b >= 0,
                    u >= 0,
            ;
        }
        // The start of the binade is a whole number of steps itself.
        assert((b - s) * u == b * u - v) by (nonlinear_arith)
            requires
                v == s * u,
        ;
        if b != s {
            assert((b - s) * u <= -u) by (nonlinear_arith)
                requires
                    b < s,
                    u > 0,
            ;
        }
    }
}

/// A whole number is compared as the double nearest to it: no double is nearer, of two
/// that are as near it is the even one, and up to 2^53 it is the number itself.
pub proof fn integers_are_rounded_to_the_nearest_double(i: int, d: u64)
    requires
        -0x8000_0000_0000_0000 <= i < 0x1_0000_0000_0000_0000,
        is_finite(d),
    ensures
        ({
            let r = double_of_int(i);
            let number = i * pow2(1074);
            &&& is_finite(r)
            &&& distance(double_value(r), number) <= distance(double_value(d), number)
            &&& distance(double_value(r), number) == distance(double_value(d), number)
                && double_value(r) != double_value(d) ==> r % 2 == 0
            &&& -0x20_0000_0000_0000 <= i <= 0x20_0000_0000_0000 ==> double_value(r) == number
        }),
{
    if i == 0 {
        assert(0 * pow2(1074) == 0) by (nonlinear_arith);
    } else if i > 0 {
        lemma_top_bit_is_small(i as nat);
        lemma_double_of_nat(i as nat);
        lemma_nearest_nat(i as nat, d);
    } else {
        let n = (-i) as nat;
        lemma_top_bit_is_small(n);
        lemma_double_of_nat(n);
        lemma_nearest_nat(n, negated(d));
        assert(i * pow2(1074) == -(n * pow2(1074))) by (nonlinear_arith)
            requires
                i == -n,
        ;
    }
}

/// An integer and a double are ordered, and are equal, as the double nearest to the
/// integer is with the double.
pub proof fn integers_and_doubles_are_ordered_as_doubles(op: CmpOp, i: i64, u: u64, d: u64)
    ensures
        ({
            let x = Val::Double(double_of_int(i as int));
            let y = Val::Double(double_of_int(u as int));
            let z = Val::Double(d);
            &&& compare(op, Val::Int(i), z) == compare(op, x, z)
            &&& compare(op, z, Val::Int(i)) == compare(op, z, x)
            &&& compare(op, Val::UInt(u), z) == compare(op, y, z)
            &&& compare(op, z, Val::UInt(u)) == compare(op, z, y)
            &&& val_eq(Val::Int(i), z) == val_eq(x, z)
            &&& val_eq(z, Val::Int(i)) == val_eq(z, x)
            &&& val_eq(Val::UInt(u), z) == val_eq(y, z)
            &&& val_eq(z, Val::UInt(u)) == val_eq(z, y)
        }),
{
}

/// A double that is not a number equals nothing, itself included.
pub proof fn what_is_not_a_number_equals_nothing(d: u64, v: Val)
    requires
        magnitude(d) > INFINITY,
    ensures
        !val_eq(Val::Double(d), v),
        !val_eq(v, Val::Double(d)),
{
}

proof fn lemma_integers_are_numbers(v: Val)
    ensures
        v matches Val::Int(i) ==> !is_nan(double_of_int(i as int)),
        v matches Val::UInt(u) ==> !is_nan(double_of_int(u as int)),
{
    match v {
        Val::Int(i) => integers_are_rounded_to_the_nearest_double(i as int, 0),
        Val::UInt(u) => integers_are_rounded_to_the_nearest_double(u as int, 0),
        _ => {},
    }
}

} // verus!
