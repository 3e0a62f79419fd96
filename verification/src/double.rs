//! Doubles as bit patterns.
//!
//! A CEL `double` is an IEEE 754 binary64 number. The library holds one as the
//! 64 bits of its encoding: sign in the top bit, then eleven exponent bits, then
//! fifty-two mantissa bits. Everything the language asks of a double besides
//! arithmetic (order, equality, sign change, conversion from an integer) is
//! integer logic on those bits, and is proved here.

use vstd::arithmetic::power2::{lemma_pow2_adds, lemma_pow2_pos, lemma_pow2_unfold, pow2};
use vstd::prelude::*;

verus! {

/// The sign bit.
pub const SIGN_BIT: u64 = 0x8000_0000_0000_0000;

/// The encoding of positive infinity. A larger magnitude is not a number.
pub const INFINITY: u64 = 0x7FF0_0000_0000_0000;

/// The lowest bit of the exponent field: the weight of one binade.
pub const BINADE: u64 = 0x0010_0000_0000_0000;

/// The encoding without its sign.
pub open spec fn magnitude(bits: u64) -> int {
    if bits >= SIGN_BIT {
        bits - SIGN_BIT
    } else {
        bits as int
    }
}

/// Whether `bits` encodes "not a number".
pub open spec fn is_nan(bits: u64) -> bool {
    magnitude(bits) > INFINITY
}

/// The position of a number on the line of all doubles. Encodings of one sign
/// grow with the number they stand for, and the two zeros share position 0.
pub open spec fn rank(bits: u64) -> int {
    if bits >= SIGN_BIT {
        -magnitude(bits)
    } else {
        magnitude(bits)
    }
}

/// How two doubles are ordered; `None` if either is not a number.
pub open spec fn double_order(a: u64, b: u64) -> Option<Order> {
    if is_nan(a) || is_nan(b) {
        None
    } else {
        Some(int_order(rank(a), rank(b)))
    }
}

/// `a == b` as doubles: `-0.0 == 0.0`, and NaN equals nothing.
pub open spec fn double_eq(a: u64, b: u64) -> bool {
    double_order(a, b) == Some(Order::Equal)
}

/// The three outcomes of comparing two ordered things.
#[derive(Clone, Copy, Debug, PartialEq, Eq, Structural)]
pub enum Order {
    Less,
    Equal,
    Greater,
}

/// The order of two integers.
pub open spec fn int_order(a: int, b: int) -> Order {
    if a < b {
        Order::Less
    } else if a == b {
        Order::Equal
    } else {
        Order::Greater
    }
}

/// The order with its operands exchanged.
pub open spec fn reversed(o: Order) -> Order {
    match o {
        Order::Less => Order::Greater,
        Order::Equal => Order::Equal,
        Order::Greater => Order::Less,
    }
}

impl Order {
    /// The order of the same operands exchanged.
    pub fn reverse(self) -> (r: Order)
        ensures
            r == reversed(self),
    {
        match self {
            Order::Less => Order::Greater,
            Order::Equal => Order::Equal,
            Order::Greater => Order::Less,
        }
    }
}

/// The order of two `i64`.
pub fn order_i64(a: i64, b: i64) -> (r: Order)
    ensures
        r == int_order(a as int, b as int),
{
    if a < b {
        Order::Less
    } else if a == b {
        Order::Equal
    } else {
        Order::Greater
    }
}

/// The order of two `u64`.
pub fn order_u64(a: u64, b: u64) -> (r: Order)
    ensures
        r == int_order(a as int, b as int),
{
    if a < b {
        Order::Less
    } else if a == b {
        Order::Equal
    } else {
        Order::Greater
    }
}

fn magnitude_of(bits: u64) -> (r: u64)
    ensures
        r == magnitude(bits),
        r < SIGN_BIT,
{
    if bits >= SIGN_BIT {
        bits - SIGN_BIT
    } else {
        bits
    }
}

/// Whether `bits` encodes "not a number".
pub fn double_is_nan(bits: u64) -> (r: bool)
    ensures
        r == is_nan(bits),
{
    magnitude_of(bits) > INFINITY
}

/// Whether `bits` is one of the two zeros.
pub fn double_is_zero(bits: u64) -> (r: bool)
    ensures
        r == double_eq(bits, 0),
{
    magnitude_of(bits) == 0
}

/// Compare two doubles.
pub fn compare_doubles(a: u64, b: u64) -> (r: Option<Order>)
    ensures
        r == double_order(a, b),
{
    let ma: u64 = magnitude_of(a);
    let mb: u64 = magnitude_of(b);
    if ma > INFINITY || mb > INFINITY {
        return None;
    }
    if a < SIGN_BIT {
        if b < SIGN_BIT {
            Some(order_u64(ma, mb))
        } else if ma == 0 && mb == 0 {
            Some(Order::Equal)
        } else {
            Some(Order::Greater)
        }
    } else if b < SIGN_BIT {
        if ma == 0 && mb == 0 {
            Some(Order::Equal)
        } else {
            Some(Order::Less)
        }
    } else {
        Some(order_u64(mb, ma))
    }
}

/// `-x`: the same encoding with the sign flipped, for a number and a NaN alike.
pub open spec fn negated(bits: u64) -> u64 {
    if bits >= SIGN_BIT {
        (bits - SIGN_BIT) as u64
    } else {
        (bits + SIGN_BIT) as u64
    }
}

/// Flip the sign of a double.
pub fn negate_double(bits: u64) -> (r: u64)
    ensures
        r == negated(bits),
{
    if bits >= SIGN_BIT {
        bits - SIGN_BIT
    } else {
        bits + SIGN_BIT
    }
}

/// The exponent of the highest bit of `n`: `2^e <= n < 2^(e+1)`, and 0 for 0.
pub open spec fn top_bit(n: nat) -> nat
    decreases n,
{
    if n < 2 {
        0
    } else {
        1 + top_bit(n / 2)
    }
}

/// `n / 2^shift` rounded to the nearest integer, a tie to the even one.
pub open spec fn rounded_shift(n: nat, shift: nat) -> nat {
    let q = n / pow2(shift);
    let r = n % pow2(shift);
    if 2 * r > pow2(shift) || (2 * r == pow2(shift) && q % 2 == 1) {
        q + 1
    } else {
        q
    }
}

/// The encoding of the double nearest to `n`, a tie to the even mantissa.
///
/// Fifty-three significant bits are kept. A rounding that carries out of the
/// mantissa lands in the exponent field, which is the next binade.
pub open spec fn double_of_nat(n: nat) -> int {
    if n == 0 {
        0
    } else {
        let e = top_bit(n);
        let significand = if e <= 52 {
            n * pow2((52 - e) as nat)
        } else {
            rounded_shift(n, (e - 52) as nat)
        };
        (e + 1022) * BINADE + significand
    }
}

/// The encoding of the double nearest to the integer `i`.
pub open spec fn double_of_int(i: int) -> u64 {
    if i < 0 {
        (SIGN_BIT + double_of_nat((-i) as nat)) as u64
    } else {
        double_of_nat(i as nat) as u64
    }
}

proof fn lemma_top_bit(n: nat, e: nat)
    requires
        pow2(e) <= n < 2 * pow2(e),
    ensures
        top_bit(n) == e,
    decreases e,
{
    lemma_pow2_pos(e);
    if e == 0 {
        vstd::arithmetic::power2::lemma2_to64();
    } else {
        lemma_pow2_unfold(e);
        let f = (e - 1) as nat;
        lemma_pow2_pos(f);
        assert(pow2(f) <= n / 2 < 2 * pow2(f));
        lemma_top_bit(n / 2, f);
    }
}

fn power_of_two(e: u32) -> (r: u64)
    requires
        e < 64,
    ensures
        r == pow2(e as nat),
{
    let mut p: u64 = 1;
    let mut i: u32 = 0;
    proof {
        vstd::arithmetic::power2::lemma2_to64();
        vstd::arithmetic::power2::lemma2_to64_rest();
    }
    while i < e
        invariant
            i <= e < 64,
            p == pow2(i as nat),
            pow2(63) == SIGN_BIT,
        decreases e - i,
    {
        proof {
            lemma_pow2_unfold((i + 1) as nat);
            if i + 1 < 63 {
                vstd::arithmetic::power2::lemma_pow2_strictly_increases((i + 1) as nat, 63);
            }
        }
        p = p * 2;
        i = i + 1;
    }
    p
}

/// The magnitude half of the conversion: the double nearest to `n`.
fn round_magnitude(n: u64) -> (r: u64)
    ensures
        r == double_of_nat(n as nat),
        r < INFINITY,
{
    if n == 0 {
        return 0;
    }
    proof {
        vstd::arithmetic::power2::lemma2_to64();
        vstd::arithmetic::power2::lemma2_to64_rest();
    }
    let mut e: u32 = 0;
    let mut p: u64 = 1;
    while p <= n / 2
        invariant
            e < 64,
            p == pow2(e as nat),
            1 <= p <= n,
            pow2(63) == SIGN_BIT,
            pow2(64) == 2 * SIGN_BIT,
        decreases n - p,
    {
        proof {
            lemma_pow2_unfold((e + 1) as nat);
            if e == 63 {
                assert(false);
            }
        }
        p = p * 2;
        e = e + 1;
    }
    proof {
        lemma_top_bit(n as nat, e as nat);
    }
    if e <= 52 {
        let scale: u64 = power_of_two(52 - e);
        proof {
            lemma_pow2_adds(e as nat, (52 - e) as nat);
            assert(n * scale < 2 * BINADE) by (nonlinear_arith)
                requires
                    n < 2 * p,
                    p * scale == BINADE,
                    scale >= 0,
            ;
        }
        let significand: u64 = n * scale;
        (e as u64 + 1022) * BINADE + significand
    } else {
        let d: u64 = power_of_two(e - 52);
        let q: u64 = n / d;
        let r: u64 = n % d;
        proof {
            lemma_pow2_adds(52, (e - 52) as nat);
            lemma_pow2_pos((e - 52) as nat);
            lemma_pow2_unfold((e - 52) as nat);
            if e - 52 < 12 {
                vstd::arithmetic::power2::lemma_pow2_strictly_increases((e - 52) as nat, 12);
            }
            assert(q < 2 * BINADE) by (nonlinear_arith)
                requires
                    n < 2 * p,
                    p == BINADE * d,
                    d > 0,
                    q == n / d,
            ;
        }
        let up: bool = r > d - r || (r == d - r && q % 2 == 1);
        let significand: u64 = if up {
            q + 1
        } else {
            q
        };
        (e as u64 + 1022) * BINADE + significand
    }
}

/// `i as double`: the nearest double, a tie to the even mantissa.
pub fn double_from_i64(i: i64) -> (r: u64)
    ensures
        r == double_of_int(i as int),
{
    if i < 0 {
        let n: u64 = if i == i64::MIN {
            SIGN_BIT
        } else {
            (-i) as u64
        };
        SIGN_BIT + round_magnitude(n)
    } else {
        round_magnitude(i as u64)
    }
}

/// `u as double`: the nearest double, a tie to the even mantissa.
pub fn double_from_u64(u: u64) -> (r: u64)
    ensures
        r == double_of_int(u as int),
{
    round_magnitude(u)
}

/// Comparing with the operands exchanged reverses the answer.
pub proof fn double_order_reverses(a: u64, b: u64)
    ensures
        double_order(b, a) == match double_order(a, b) {
            None => None::<Order>,
            Some(o) => Some(reversed(o)),
        },
{
}

/// A double equals itself exactly if it is a number.
pub proof fn double_eq_reflexive_iff_number(a: u64)
    ensures
        double_eq(a, a) == !is_nan(a),
{
}

/// Two sign changes give the double back.
pub proof fn negation_is_an_involution(a: u64)
    ensures
        negated(negated(a)) == a,
        is_nan(negated(a)) == is_nan(a),
        rank(negated(a)) == -rank(a),
{
}

} // verus!
