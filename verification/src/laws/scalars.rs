//! Times, texts, keys, doubles and columns, by the functions that make and read them.

use crate::access::key_display;
use crate::column::{type_const_value, ScalarBank, ValueColumn};
use crate::double::{
    compare_doubles, double_from_i64, double_from_u64, double_is_nan, double_is_zero, magnitude,
    negate_double, order_i64, order_u64, Order, INFINITY,
};
use crate::key::{Key, KeyRef};
use crate::laws::operators::{fits_duration, size};
use crate::laws::ordering::{
    distance, double_value, integers_are_rounded_to_the_nearest_double, is_finite,
    lemma_values_follow_ranks,
};
use crate::model::{decimal, digit, digits, other_integer, CoreType, TypeV, Val};
use crate::text::{bytes_eq, compare_bytes, compare_strs, i64_text, str_eq, u64_text};
use crate::time::{instant_at, Duration, Instant, Timestamp};
use crate::value::Value;
use vstd::arithmetic::power2::pow2;
use vstd::prelude::*;
use vstd::utf8::encode_utf8;

verus! {

/// A duration is made of seconds and the nanoseconds of less than one, is read as these,
/// and is no longer than 9223372036854775807 milliseconds.
pub proof fn durations_are_made_of_seconds_and_nanoseconds(
    secs: i64,
    nanos: u32,
    made: Option<Duration>,
    d: Duration,
    whole: i64,
    rest: u32,
)
    requires
        call_ensures(Duration::new, (secs, nanos), made),
        call_ensures(Duration::whole_seconds, (d,), whole),
        call_ensures(Duration::subsec_nanos, (d,), rest),
    ensures
        made is Some <==> nanos < 1_000_000_000 && fits_duration(secs * 1_000_000_000 + nanos),
        made matches Some(x) ==> x@ == secs * 1_000_000_000 + nanos,
        whole * 1_000_000_000 + rest == d@,
        rest < 1_000_000_000,
{
}

/// The nanoseconds of a duration are what it is made of and what it is read as; they add
/// up, and are ordered as numbers are.
pub proof fn durations_count_nanoseconds(
    n: i64,
    made: Duration,
    a: Duration,
    b: Duration,
    read: Option<i64>,
    sum: Option<Duration>,
    difference: Option<Duration>,
    opposite: Duration,
    zero: bool,
    o: Order,
)
    requires
        call_ensures(Duration::nanoseconds, (n,), made),
        call_ensures(Duration::num_nanoseconds, (a,), read),
        call_ensures(Duration::checked_add, (a, b), sum),
        call_ensures(Duration::checked_sub, (a, b), difference),
        call_ensures(Duration::negate, (a,), opposite),
        call_ensures(Duration::is_zero, (a,), zero),
        call_ensures(Duration::order, (a, b), o),
    ensures
        made@ == n,
        read is Some <==> i64::MIN <= a@ <= i64::MAX,
        read matches Some(x) ==> x == a@,
        sum is Some <==> fits_duration(a@ + b@),
        sum matches Some(x) ==> x@ == a@ + b@,
        difference is Some <==> fits_duration(a@ - b@),
        difference matches Some(x) ==> x@ == a@ - b@,
        opposite@ == -a@,
        zero == (a@ == 0),
        o == Order::Less <==> a@ < b@,
        o == Order::Equal <==> a@ == b@,
        o == Order::Greater <==> a@ > b@,
{
}

/// A timestamp is made of the seconds since the Unix epoch, the nanoseconds past them and
/// an offset of less than a day, and is read as these. Only in a leap second, which ends a
/// minute, are there as many nanoseconds as a second has, or more.
pub proof fn timestamps_are_made_of_seconds_and_nanoseconds(
    secs: i64,
    nanos: u32,
    offset: i32,
    made: Option<Timestamp>,
    whole: i64,
    rest: u32,
    off: i32,
)
    requires
        call_ensures(Timestamp::new, (secs, nanos, offset), made),
        made matches Some(t) ==> call_ensures(Timestamp::whole_seconds, (t,), whole)
            && call_ensures(Timestamp::subsec_nanos, (t,), rest) && call_ensures(
            Timestamp::offset,
            (t,),
            off,
        ),
    ensures
        made matches Some(t) ==> {
            &&& whole == secs && rest == nanos && off == offset
            &&& t@.nanos == secs * 1_000_000_000 + nanos
            &&& t@.leap == (nanos >= 1_000_000_000)
            &&& t@.offset == offset
        },
        made is Some ==> size(offset as int) < 86_400 && nanos < 2_000_000_000,
        nanos >= 1_000_000_000 && made is Some ==> (secs + 1) % 60 == 0,
        nanos < 1_000_000_000 && size(offset as int) < 86_400 && size(secs as int)
            <= 8_210_000_000_000 ==> made is Some,
{
}

/// A count of nanoseconds makes a timestamp outside any leap second, and is read back.
pub proof fn timestamps_count_nanoseconds(
    n: i64,
    offset: i32,
    made: Option<Timestamp>,
    utc: Timestamp,
    t: Timestamp,
    read: Option<i64>,
    within: bool,
)
    requires
        call_ensures(Timestamp::from_nanoseconds, (n, offset), made),
        call_ensures(Timestamp::utc_from_nanoseconds, (n,), utc),
        call_ensures(Timestamp::num_nanoseconds, (t,), read),
        call_ensures(Timestamp::is_within_limits, (t,), within),
    ensures
        made is Some <==> size(offset as int) < 86_400,
        made matches Some(x) ==> x@.nanos == n && !x@.leap && x@.offset == offset,
        utc@.nanos == n && !utc@.leap && utc@.offset == 0,
        read is Some <==> i64::MIN <= t@.nanos <= i64::MAX,
        read matches Some(x) ==> x == t@.nanos,
        !t@.leap ==> within == crate::laws::operators::lies_in_the_years(t@.nanos),
{
}

/// Outside leap seconds, moving a timestamp by a duration and taking the duration since
/// then undo each other, and timestamps are ordered by their nanoseconds whatever their
/// offsets.
pub proof fn timestamps_move_along_the_line(
    t: Timestamp,
    d: Duration,
    u: Timestamp,
    later: Option<Timestamp>,
    earlier: Option<Timestamp>,
    since: Duration,
    o: Order,
)
    requires
        !t@.leap,
        !u@.leap,
        call_ensures(Timestamp::checked_add, (t, d), later),
        call_ensures(Timestamp::checked_sub, (t, d), earlier),
        call_ensures(Timestamp::since, (t, u), since),
        call_ensures(Timestamp::order, (t, u), o),
    ensures
        later matches Some(x) ==> x@.nanos == t@.nanos + d@ && x@.offset == t@.offset && !x@.leap,
        earlier matches Some(x) ==> x@.nanos == t@.nanos - d@ && x@.offset == t@.offset
            && !x@.leap,
        size(t@.nanos + d@) <= 8_210_000_000_000 * 1_000_000_000 ==> later is Some,
        size(t@.nanos - d@) <= 8_210_000_000_000 * 1_000_000_000 ==> earlier is Some,
        since@ == t@.nanos - u@.nanos,
        o == Order::Less <==> t@.nanos < u@.nanos,
        o == Order::Equal <==> t@.nanos == u@.nanos,
        o == Order::Greater <==> t@.nanos > u@.nanos,
{
}

/// A leap second counts where it is left backwards and does not count where it is left
/// forwards; within it, a timestamp stays in it.
pub proof fn a_leap_second_counts_backwards_only(secs: int, x: int, offset: int, d: int)
    requires
        0 <= x < 1_000_000_000,
    ensures
        ({
            let t = instant_at(secs, 1_000_000_000 + x, offset);
            let m = t.moved(d);
            &&& m.offset == offset
            &&& 0 <= x + d < 1_000_000_000 ==> m == instant_at(secs, 1_000_000_000 + x + d, offset)
            &&& x + d >= 1_000_000_000 ==> !m.leap && m.nanos == secs * 1_000_000_000 + x + d
            &&& x + d < 0 ==> !m.leap && m.nanos == (secs + 1) * 1_000_000_000 + x + d
        }),
{
    let t = instant_at(secs, 1_000_000_000 + x, offset);
    assert(t.secs() == secs);
    assert(t.frac() == 1_000_000_000 + x);
}

/// The nanoseconds from one timestamp to another are the opposite of those back, leap
/// seconds or not.
pub proof fn differences_are_opposite(t: Instant, u: Instant)
    ensures
        t.since(u) == -u.since(t),
        !t.leap && !u.leap ==> t.since(u) == t.nanos - u.nanos,
{
}

// ---------------------------------------------------------------------------
// Text.

/// The number that decimal digits write.
pub open spec fn written_number(s: Seq<char>) -> int
    decreases s.len(),
{
    if s.len() == 0 {
        0
    } else {
        10 * written_number(s.drop_last()) + (s.last() as int - '0' as int)
    }
}

/// Whether a text is decimal digits, without a zero in front of others.
pub open spec fn is_decimal(s: Seq<char>) -> bool {
    &&& s.len() > 0
    &&& s.len() > 1 ==> s[0] != '0'
    &&& forall|i: int| 0 <= i < s.len() ==> '0' <= #[trigger] s[i] <= '9'
}

proof fn lemma_digits(n: nat)
    ensures
        written_number(digits(n)) == n,
        is_decimal(digits(n)),
        n > 0 ==> digits(n)[0] != '0',
    decreases n,
{
    if n < 10 {
        let s = seq![digit(n)];
        assert(s.drop_last() =~= Seq::<char>::empty());
        assert(written_number(s.drop_last()) == 0);
        assert(s.last() == digit(n));
    } else {
        lemma_digits(n / 10);
        let s = digits(n / 10);
        let t = s.push(digit(n % 10));
        assert(t.drop_last() =~= s);
        assert(t.last() == digit(n % 10));
        assert(t[0] == s[0]);
    }
}

/// A number is written in decimal digits that stand for it, a negative one with a minus
/// sign in front.
pub proof fn numbers_are_written_in_decimal(u: u64, i: i64, s: String, t: String)
    requires
        call_ensures(u64_text, (u,), s),
        call_ensures(i64_text, (i,), t),
    ensures
        is_decimal(s@) && written_number(s@) == u,
        i >= 0 ==> is_decimal(t@) && written_number(t@) == i,
        i < 0 ==> t@.len() > 1 && t@[0] == '-' && is_decimal(t@.drop_first()) && written_number(
            t@.drop_first(),
        ) == -i,
{
    lemma_digits(u as nat);
    if i >= 0 {
        lemma_digits(i as nat);
    } else {
        lemma_digits((-i) as nat);
        assert(t@.drop_first() =~= digits((-i) as nat));
    }
}

/// A key is written in messages as its number in decimal, `true` or `false`, or its text.
pub proof fn keys_are_written_as_they_are(k: Key, r: KeyRef<'_>, s: String, t: String)
    requires
        call_ensures(key_display, (&k,), s),
        call_ensures(KeyRef::text, (r,), t),
    ensures
        match k@ {
            Val::Str(x) => s@ == x,
            Val::Bool(b) => s@ == if b {
                "true"@
            } else {
                "false"@
            },
            Val::UInt(u) => is_decimal(s@) && written_number(s@) == u,
            Val::Int(i) => if i >= 0 {
                is_decimal(s@) && written_number(s@) == i
            } else {
                s@.len() > 1 && s@[0] == '-' && written_number(s@.drop_first()) == -i
            },
            _ => true,
        },
        k@ == r@ ==> s@ == t@,
{
    match k@ {
        Val::UInt(u) => lemma_digits(u as nat),
        Val::Int(i) => {
            if i >= 0 {
                lemma_digits(i as nat);
            } else {
                lemma_digits((-i) as nat);
                assert(s@.drop_first() =~= digits((-i) as nat));
            }
        },
        _ => {},
    }
}

/// Two keys are the same where they are the same value; the other integer of a key is the
/// same number.
pub proof fn keys_are_compared_exactly(
    a: KeyRef<'_>,
    b: KeyRef<'_>,
    same: bool,
    other: Option<KeyRef<'static>>,
)
    requires
        call_ensures(KeyRef::same, (a, b), same),
        call_ensures(KeyRef::other_integer, (a,), other),
    ensures
        same == (a@ == b@),
        other matches Some(o) ==> match (a@, o@) {
            (Val::Int(i), Val::UInt(u)) => i == u,
            (Val::UInt(u), Val::Int(i)) => i == u,
            _ => false,
        },
        other is None <==> match a@ {
            Val::Int(i) => i < 0,
            Val::UInt(u) => u > i64::MAX,
            _ => true,
        },
{
}

/// Texts and byte strings are the same where all their parts are, and are ordered as in a
/// dictionary.
pub proof fn texts_are_compared(
    a: &str,
    b: &str,
    x: &[u8],
    y: &[u8],
    texts: bool,
    bytes: bool,
    to: Order,
    bo: Order,
)
    requires
        call_ensures(str_eq, (a, b), texts),
        call_ensures(bytes_eq, (x, y), bytes),
        call_ensures(compare_strs, (a, b), to),
        call_ensures(compare_bytes, (x, y), bo),
    ensures
        texts == (a@ == b@),
        bytes == (x@ == y@),
        to == Order::Less <==> crate::laws::ordering::precedes(encode_utf8(a@), encode_utf8(b@)),
        to == Order::Greater <==> crate::laws::ordering::precedes(encode_utf8(b@), encode_utf8(a@)),
        bo == Order::Less <==> crate::laws::ordering::precedes(x@, y@),
        bo == Order::Greater <==> crate::laws::ordering::precedes(y@, x@),
        bo == Order::Equal <==> x@ == y@,
{
    crate::laws::ordering::lemma_bytes_order(encode_utf8(a@), encode_utf8(b@));
    crate::laws::ordering::lemma_bytes_order(x@, y@);
}

// ---------------------------------------------------------------------------
// Numbers.

/// Machine integers are ordered as numbers are, and an order reversed is that of the
/// operands exchanged.
pub proof fn machine_integers_are_ordered(
    a: i64,
    b: i64,
    x: u64,
    y: u64,
    so: Order,
    uo: Order,
    back: Order,
)
    requires
        call_ensures(order_i64, (a, b), so),
        call_ensures(order_u64, (x, y), uo),
        call_ensures(Order::reverse, (so,), back),
    ensures
        so == Order::Less <==> a < b,
        so == Order::Greater <==> a > b,
        uo == Order::Less <==> x < y,
        uo == Order::Greater <==> x > y,
        back == Order::Less <==> b < a,
        back == Order::Greater <==> b > a,
{
}

/// Doubles are compared by the numbers that they stand for, and not at all where one is
/// not a number; the opposite of a double stands for the opposite number.
pub proof fn doubles_are_compared(
    a: u64,
    b: u64,
    o: Option<Order>,
    nan: bool,
    zero: bool,
    opposite: u64,
)
    requires
        call_ensures(compare_doubles, (a, b), o),
        call_ensures(double_is_nan, (a,), nan),
        call_ensures(double_is_zero, (a,), zero),
        call_ensures(negate_double, (a,), opposite),
    ensures
        nan == (magnitude(a) > INFINITY),
        magnitude(a) > INFINITY || magnitude(b) > INFINITY ==> o is None,
        is_finite(a) && is_finite(b) ==> o == Some(
            if double_value(a) < double_value(b) {
                Order::Less
            } else if double_value(a) == double_value(b) {
                Order::Equal
            } else {
                Order::Greater
            },
        ),
        zero == (is_finite(a) && double_value(a) == 0),
        double_value(opposite) == -double_value(a),
        opposite != a,
{
    lemma_values_follow_ranks(a, b);
    lemma_values_follow_ranks(a, 0);
}

/// An integer becomes the double nearest to it.
pub proof fn integers_become_the_nearest_doubles(i: i64, u: u64, x: u64, y: u64, d: u64)
    requires
        call_ensures(double_from_i64, (i,), x),
        call_ensures(double_from_u64, (u,), y),
        is_finite(d),
    ensures
        distance(double_value(x), i * pow2(1074)) <= distance(double_value(d), i * pow2(1074)),
        distance(double_value(y), (u * pow2(1074)) as int) <= distance(
            double_value(d),
            (u * pow2(1074)) as int,
        ),
        is_finite(x) && is_finite(y),
{
    integers_are_rounded_to_the_nearest_double(i as int, d);
    integers_are_rounded_to_the_nearest_double(u as int, d);
}

// ---------------------------------------------------------------------------
// Columns.

/// A word of a column is read as what its bank holds: a number, whether it is not zero, the
/// bits of a double, nanoseconds, or a type.
pub proof fn words_are_read_by_their_bank(
    bank: ScalarBank,
    words: std::sync::Arc<[i64]>,
    i: usize,
    v: Value,
)
    requires
        i < words@.len(),
        call_ensures(ValueColumn::value_at, (&(ValueColumn::Scalar { bank, words }), i), v),
    ensures
        ({
            let w = words@[i as int];
            let unsigned: int = if w < 0 {
                w + 0x1_0000_0000_0000_0000
            } else {
                w as int
            };
            match bank {
                ScalarBank::Int => v@ == Val::Int(w),
                ScalarBank::UInt => v@ matches Val::UInt(u) && u == unsigned,
                ScalarBank::Bool => v@ == Val::Bool(w != 0),
                ScalarBank::Float => v@ matches Val::Double(d) && d == unsigned,
                ScalarBank::Timestamp => v@ matches Val::Timestamp(t) && t.nanos == w && t.offset
                    == 0 && !t.leap,
                ScalarBank::Duration => v@ == Val::Duration(w as int),
                ScalarBank::Type => (w < 0 || w > 12) ==> v@ == Val::Null,
            }
        }),
{
    let w = words@[i as int];
    assert(w < 0 ==> (w as u64) as int == w + 0x1_0000_0000_0000_0000) by (bit_vector);
}

/// The types stand in a table in this order, and outside it there is none.
pub proof fn types_stand_in_a_table(i: i64, v: Value)
    requires
        call_ensures(type_const_value, (i,), v),
    ensures
        i == 0 ==> v@ == Val::Type(TypeV::Core(CoreType::Int)),
        i == 1 ==> v@ == Val::Type(TypeV::Core(CoreType::UInt)),
        i == 2 ==> v@ == Val::Type(TypeV::Core(CoreType::Double)),
        i == 3 ==> v@ == Val::Type(TypeV::Core(CoreType::Bool)),
        i == 4 ==> v@ == Val::Type(TypeV::Core(CoreType::String)),
        i == 5 ==> v@ == Val::Type(TypeV::Core(CoreType::Bytes)),
        i == 6 ==> v@ == Val::Type(TypeV::Core(CoreType::Null)),
        i == 7 ==> v@ == Val::Type(TypeV::Core(CoreType::List)),
        i == 8 ==> v@ == Val::Type(TypeV::Core(CoreType::CelMap)),
        i == 9 ==> v@ == Val::Type(TypeV::Core(CoreType::Type)),
        i == 10 ==> v@ == Val::Type(TypeV::Core(CoreType::Optional)),
        i == 11 ==> v@ == Val::Type(TypeV::Core(CoreType::Duration)),
        i == 12 ==> v@ == Val::Type(TypeV::Core(CoreType::Timestamp)),
        i < 0 || i > 12 ==> v@ == Val::Null,
{
}

} // verus!
