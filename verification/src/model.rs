//! What CEL values are and what the language's operators mean.
//!
//! Nothing here runs. Every executable value of the library, however it is
//! stored, stands for one [`Val`], and the contracts of the executable functions
//! are stated over the functions of this module.

use crate::double::{double_eq, double_of_int, double_order, int_order, negated, Order};
use crate::runtime::object::CelClass;
use crate::time::{in_duration_range, in_timestamp_limits, Instant};
use vstd::prelude::*;
use vstd::utf8::encode_utf8;

verus! {

/// The types that have a class of their own.
#[derive(Clone, Copy, Debug, PartialEq, Eq, Structural)]
pub enum CoreType {
    Int,
    UInt,
    Double,
    Bool,
    String,
    Bytes,
    Null,
    List,
    CelMap,
    Type,
    Optional,
    Duration,
    Timestamp,
}

/// A type as a value.
pub enum TypeV {
    Core(CoreType),
    Opaque(Seq<char>),
    Struct(Seq<char>),
    /// A class of the runtime that has no type of its own.
    Class(CelClass),
}

/// Why a value of the runtime cannot be read back.
#[derive(Clone, Copy, Debug, PartialEq, Eq, Structural)]
pub enum ReadError {
    /// There is no object.
    NullPointer,
    /// The object's class is no value class.
    Class,
    /// A type value denotes a class that is no type.
    Type,
    /// A timestamp's offset is a day or more.
    Timestamp,
    /// A host object whose host is gone, or is no value.
    Opaque,
    /// A map key is no key.
    MapKey,
    /// A struct field's name is no string.
    FieldName,
}

/// A CEL value.
///
/// A map is its entries in order. A key is an `Int`, a `UInt`, a `Bool` or a
/// `Str`, and no key occurs twice in a map that the language built. A struct is
/// its type's name and its fields, whose names are `Str`s. `Invalid` stands for
/// what is no CEL value at all: a missing reference, an activation record, a bare
/// column.
pub enum Val {
    Null,
    Bool(bool),
    Int(i64),
    UInt(u64),
    Double(u64),
    Str(Seq<char>),
    Bytes(Seq<u8>),
    Duration(int),
    Timestamp(Instant),
    List(Seq<Val>),
    CelMap(Seq<(Val, Val)>),
    Optional(Option<Box<Val>>),
    Type(TypeV),
    Host(Seq<char>, u64),
    Struct(Seq<char>, Seq<(Val, Val)>),
    Invalid(ReadError),
}

/// The kinds of value that error messages name.
#[derive(Clone, Copy, Debug, PartialEq, Eq, Structural)]
pub enum ValueType {
    List,
    CelMap,
    Int,
    UInt,
    Float,
    String,
    Bytes,
    Bool,
    Duration,
    Timestamp,
    Opaque,
    Null,
    Struct,
}

/// The five arithmetic operators.
#[derive(Clone, Copy, Debug, PartialEq, Eq, Structural)]
pub enum BinOp {
    Add,
    Sub,
    Mul,
    Div,
    Rem,
}

/// Why an expression has no value.
pub enum ErrV {
    NoSuchOverload,
    UnexpectedType(Seq<char>, Seq<char>),
    Overflow(Seq<char>, Val, Val),
    DivisionByZero(Val),
    RemainderByZero(Val),
    UnsupportedBinaryOperator(Seq<char>, Val, Val),
    IndexOutOfBounds(Val),
    NoSuchKey(Seq<char>),
    UndeclaredReference(Seq<char>),
    UnsupportedIndex(Val, Val),
    UnsupportedKeyType(Val),
    InternalError(Seq<char>),
    FunctionError(Seq<char>, Seq<char>),
}

/// A value or the reason there is none.
pub type ResV = Result<Val, ErrV>;

/// What an arithmetic operator comes to. On two doubles it is the IEEE 754
/// operation on them, which the processor's floating-point unit carries out.
pub enum OutV {
    Done(ResV),
    Double(BinOp, u64, u64),
}

// ---------------------------------------------------------------------------
// Names and numbers as text.

pub open spec fn op_name(op: BinOp) -> Seq<char> {
    match op {
        BinOp::Add => "add"@,
        BinOp::Sub => "sub"@,
        BinOp::Mul => "mul"@,
        BinOp::Div => "div"@,
        BinOp::Rem => "rem"@,
    }
}

pub open spec fn kind_name(t: ValueType) -> Seq<char> {
    match t {
        ValueType::List => "list"@,
        ValueType::CelMap => "map"@,
        ValueType::Int => "int"@,
        ValueType::UInt => "uint"@,
        ValueType::Float => "float"@,
        ValueType::String => "string"@,
        ValueType::Bytes => "bytes"@,
        ValueType::Bool => "bool"@,
        ValueType::Opaque => "opaque"@,
        ValueType::Duration => "duration"@,
        ValueType::Timestamp => "timestamp"@,
        ValueType::Null => "null"@,
        ValueType::Struct => "struct"@,
    }
}

pub open spec fn val_type(v: Val) -> ValueType {
    match v {
        Val::Null | Val::Invalid(_) => ValueType::Null,
        Val::Bool(_) => ValueType::Bool,
        Val::Int(_) => ValueType::Int,
        Val::UInt(_) => ValueType::UInt,
        Val::Double(_) => ValueType::Float,
        Val::Str(_) => ValueType::String,
        Val::Bytes(_) => ValueType::Bytes,
        Val::Duration(_) => ValueType::Duration,
        Val::Timestamp(_) => ValueType::Timestamp,
        Val::List(_) => ValueType::List,
        Val::CelMap(_) => ValueType::CelMap,
        Val::Optional(_) | Val::Type(_) | Val::Host(_, _) => ValueType::Opaque,
        Val::Struct(_, _) => ValueType::Struct,
    }
}

/// The digit character of `d`.
pub open spec fn digit(d: nat) -> char {
    ((48 + d) as u8) as char
}

/// The decimal digits of `n`.
pub open spec fn digits(n: nat) -> Seq<char>
    decreases n,
{
    if n < 10 {
        seq![digit(n)]
    } else {
        digits(n / 10).push(digit(n % 10))
    }
}

/// An integer in decimal, with a minus sign if it is negative.
pub open spec fn decimal(i: int) -> Seq<char> {
    if i < 0 {
        seq!['-'] + digits((-i) as nat)
    } else {
        digits(i as nat)
    }
}

/// How a map key is written in a message.
pub open spec fn key_text(k: Val) -> Seq<char> {
    match k {
        Val::Int(i) => decimal(i as int),
        Val::UInt(u) => decimal(u as int),
        Val::Bool(b) => if b {
            "true"@
        } else {
            "false"@
        },
        Val::Str(s) => s,
        _ => Seq::empty(),
    }
}

// ---------------------------------------------------------------------------
// Keys and entries.

/// Whether a value can be a map key.
pub open spec fn is_key(v: Val) -> bool {
    v is Int || v is UInt || v is Bool || v is Str
}

/// The first place at or after `i` where `k` stands as a key, or -1.
pub open spec fn position_from(m: Seq<(Val, Val)>, k: Val, i: int) -> int
    decreases m.len() - i,
{
    if i < 0 || i >= m.len() {
        -1
    } else if m[i].0 == k {
        i
    } else {
        position_from(m, k, i + 1)
    }
}

/// The place of key `k`, or -1.
pub open spec fn position(m: Seq<(Val, Val)>, k: Val) -> int {
    position_from(m, k, 0)
}

/// The value under exactly the key `k`.
pub open spec fn lookup(m: Seq<(Val, Val)>, k: Val) -> Option<Val> {
    let p = position(m, k);
    if 0 <= p < m.len() {
        Some(m[p].1)
    } else {
        None
    }
}

/// The same number as the other integer type, if that type has it.
pub open spec fn other_integer(k: Val) -> Option<Val> {
    match k {
        Val::Int(i) => if i >= 0 {
            Some(Val::UInt(i as u64))
        } else {
            None
        },
        Val::UInt(u) => if u <= i64::MAX {
            Some(Val::Int(u as i64))
        } else {
            None
        },
        _ => None,
    }
}

/// The value that indexing finds: under the key itself, else under the same
/// number as the other integer type.
pub open spec fn lookup_numeric(m: Seq<(Val, Val)>, k: Val) -> Option<Val> {
    match lookup(m, k) {
        Some(v) => Some(v),
        None => match other_integer(k) {
            Some(o) => lookup(m, o),
            None => None,
        },
    }
}

/// The entries with `v` stored under `k`: an entry that is there keeps its place
/// and takes the new value, a new one goes to the end.
pub open spec fn insert_entry(m: Seq<(Val, Val)>, k: Val, v: Val) -> Seq<(Val, Val)> {
    let p = position(m, k);
    if 0 <= p < m.len() {
        m.update(p, (m[p].0, v))
    } else {
        m.push((k, v))
    }
}

/// The entries of `pairs` stored one after the other.
pub open spec fn insert_all(pairs: Seq<(Val, Val)>) -> Seq<(Val, Val)>
    decreases pairs.len(),
{
    if pairs.len() == 0 {
        Seq::empty()
    } else {
        insert_entry(insert_all(pairs.drop_last()), pairs.last().0, pairs.last().1)
    }
}

/// Every key is a key, and no key occurs twice.
pub open spec fn distinct_keys(m: Seq<(Val, Val)>) -> bool {
    &&& forall|i: int| 0 <= i < m.len() ==> is_key((#[trigger] m[i]).0)
    &&& forall|i: int, j: int|
        0 <= i < m.len() && 0 <= j < m.len() && (#[trigger] m[i]).0 == (#[trigger] m[j]).0 ==> i
            == j
}

// ---------------------------------------------------------------------------
// Equality and order.

/// `a == b`.
///
/// Numbers are compared across their types, an integer with a double after
/// rounding it to a double. Lists are equal element by element, maps when each
/// entry of either is found, with an equal value, under exactly its key in the
/// other. Struct values are never equal.
pub open spec fn val_eq(a: Val, b: Val) -> bool
    decreases a,
{
    match (a, b) {
        (Val::Null, Val::Null) => true,
        (Val::Bool(x), Val::Bool(y)) => x == y,
        (Val::Int(x), Val::Int(y)) => x == y,
        (Val::UInt(x), Val::UInt(y)) => x == y,
        (Val::Double(x), Val::Double(y)) => double_eq(x, y),
        (Val::Int(x), Val::UInt(y)) => x as int == y as int,
        (Val::UInt(x), Val::Int(y)) => x as int == y as int,
        (Val::Int(x), Val::Double(y)) => double_eq(double_of_int(x as int), y),
        (Val::Double(x), Val::Int(y)) => double_eq(x, double_of_int(y as int)),
        (Val::UInt(x), Val::Double(y)) => double_eq(double_of_int(x as int), y),
        (Val::Double(x), Val::UInt(y)) => double_eq(x, double_of_int(y as int)),
        (Val::Str(x), Val::Str(y)) => x == y,
        (Val::Bytes(x), Val::Bytes(y)) => x == y,
        (Val::Duration(x), Val::Duration(y)) => x == y,
        (Val::Timestamp(x), Val::Timestamp(y)) => x.rank() == y.rank(),
        (Val::List(x), Val::List(y)) => {
            &&& x.len() == y.len()
            &&& forall|i: int| 0 <= i < x.len() ==> val_eq(#[trigger] x[i], y[i])
        },
        (Val::CelMap(x), Val::CelMap(y)) => {
            &&& x.len() == y.len()
            &&& forall|i: int|
                0 <= i < x.len() ==> {
                    let p = position(y, (#[trigger] x[i]).0);
                    0 <= p < y.len() && val_eq(x[i].1, y[p].1)
                }
            &&& forall|j: int|
                0 <= j < y.len() ==> {
                    let p = position(x, (#[trigger] y[j]).0);
                    0 <= p < x.len() && val_eq(x[p].1, y[j].1)
                }
        },
        (Val::Optional(x), Val::Optional(y)) => match (x, y) {
            (None, None) => true,
            (Some(p), Some(q)) => val_eq(*p, *q),
            _ => false,
        },
        (Val::Type(x), Val::Type(y)) => x == y,
        (Val::Host(n, x), Val::Host(m, y)) => n == m && x == y,
        _ => false,
    }
}

/// `a == b` as the runtime compares leaves: as [`val_eq`], but an entry of a map
/// is found by any key that equals its own, so that an `int` key and a `uint` key
/// of the same number are one.
pub open spec fn leaf_eq(a: Val, b: Val) -> bool
    decreases a,
{
    match (a, b) {
        (Val::List(x), Val::List(y)) => {
            &&& x.len() == y.len()
            &&& forall|i: int| 0 <= i < x.len() ==> leaf_eq(#[trigger] x[i], y[i])
        },
        (Val::CelMap(x), Val::CelMap(y)) => {
            &&& x.len() == y.len()
            &&& forall|i: int| 0 <= i < x.len() ==> leaf_found(#[trigger] x[i], y)
        },
        (Val::Optional(x), Val::Optional(y)) => match (x, y) {
            (None, None) => true,
            (Some(p), Some(q)) => leaf_eq(*p, *q),
            _ => false,
        },
        (Val::Timestamp(x), Val::Timestamp(y)) => x.nanos == y.nanos,
        _ => val_eq(a, b),
    }
}

/// Whether an entry equal to `e`, key and value, stands in `m`.
pub open spec fn leaf_found(e: (Val, Val), m: Seq<(Val, Val)>) -> bool
    decreases e,
{
    exists|j: int| 0 <= j < m.len() && leaf_eq(e.0, (#[trigger] m[j]).0) && leaf_eq(e.1, m[j].1)
}

/// The order of two byte strings: by the first byte in which they differ, and a
/// prefix before what it begins.
pub open spec fn bytes_order(a: Seq<u8>, b: Seq<u8>) -> Order
    decreases a.len(),
{
    if a.len() == 0 || b.len() == 0 {
        int_order(a.len() as int, b.len() as int)
    } else if a[0] == b[0] {
        bytes_order(a.drop_first(), b.drop_first())
    } else {
        int_order(a[0] as int, b[0] as int)
    }
}

/// How two values are ordered, if they are.
///
/// Strings are ordered by their UTF-8 bytes, timestamps by instant, `false`
/// before `true`, numbers across their types as in [`val_eq`]. `null` is ordered
/// with itself only; other pairs, and NaN with anything, have no order.
pub open spec fn val_order(a: Val, b: Val) -> Option<Order> {
    match (a, b) {
        (Val::Int(x), Val::Int(y)) => Some(int_order(x as int, y as int)),
        (Val::UInt(x), Val::UInt(y)) => Some(int_order(x as int, y as int)),
        (Val::Double(x), Val::Double(y)) => double_order(x, y),
        (Val::Str(x), Val::Str(y)) => Some(bytes_order(encode_utf8(x), encode_utf8(y))),
        (Val::Bytes(x), Val::Bytes(y)) => Some(bytes_order(x, y)),
        (Val::Bool(x), Val::Bool(y)) => Some(
            int_order(
                if x {
                    1
                } else {
                    0
                },
                if y {
                    1
                } else {
                    0
                },
            ),
        ),
        (Val::Null, Val::Null) => Some(Order::Equal),
        (Val::Duration(x), Val::Duration(y)) => Some(int_order(x, y)),
        (Val::Timestamp(x), Val::Timestamp(y)) => Some(int_order(x.rank(), y.rank())),
        (Val::Int(x), Val::UInt(y)) => Some(int_order(x as int, y as int)),
        (Val::UInt(x), Val::Int(y)) => Some(int_order(x as int, y as int)),
        (Val::Int(x), Val::Double(y)) => double_order(double_of_int(x as int), y),
        (Val::UInt(x), Val::Double(y)) => double_order(double_of_int(x as int), y),
        (Val::Double(x), Val::Int(y)) => double_order(x, double_of_int(y as int)),
        (Val::Double(x), Val::UInt(y)) => double_order(x, double_of_int(y as int)),
        _ => None,
    }
}

/// The values that `<`, `<=`, `>` and `>=` accept on their left.
pub open spec fn has_order(v: Val) -> bool {
    v is Int || v is UInt || v is Double || v is Str || v is Bytes || v is Bool || v is Duration
        || v is Timestamp
}

/// The four ordering operators.
#[derive(Clone, Copy, Debug, PartialEq, Eq, Structural)]
pub enum CmpOp {
    Less,
    LessEquals,
    Greater,
    GreaterEquals,
}

/// Whether `o` is an order that the operator accepts.
pub open spec fn accepts(op: CmpOp, o: Order) -> bool {
    match op {
        CmpOp::Less => o == Order::Less,
        CmpOp::LessEquals => o != Order::Greater,
        CmpOp::Greater => o == Order::Greater,
        CmpOp::GreaterEquals => o != Order::Less,
    }
}

/// An ordering operator on two values.
pub open spec fn compare(op: CmpOp, l: Val, r: Val) -> ResV {
    if !has_order(l) {
        Err(ErrV::NoSuchOverload)
    } else {
        match val_order(l, r) {
            Some(o) => Ok(Val::Bool(accepts(op, o))),
            None => Err(ErrV::NoSuchOverload),
        }
    }
}

/// Whether the value is the zero, or the empty one, of its type.
pub open spec fn is_zero_val(v: Val) -> bool {
    match v {
        Val::List(s) => s.len() == 0,
        Val::CelMap(m) => m.len() == 0,
        Val::Int(i) => i == 0,
        Val::UInt(u) => u == 0,
        Val::Double(d) => double_eq(d, 0),
        Val::Str(s) => s.len() == 0,
        Val::Bytes(b) => b.len() == 0,
        Val::Bool(b) => !b,
        Val::Duration(d) => d == 0,
        Val::Null => true,
        _ => false,
    }
}

// ---------------------------------------------------------------------------
// Arithmetic.

/// The quotient rounded toward zero.
pub open spec fn quotient(x: int, d: int) -> int {
    let a = if x < 0 {
        -x
    } else {
        x
    };
    let b = if d < 0 {
        -d
    } else {
        d
    };
    if (x < 0) == (d < 0) {
        a / b
    } else {
        -(a / b)
    }
}

/// What is left of `x` after the quotient, with the sign of `x`.
pub open spec fn remainder(x: int, d: int) -> int {
    let a = if x < 0 {
        -x
    } else {
        x
    };
    let b = if d < 0 {
        -d
    } else {
        d
    };
    if x < 0 {
        -(a % b)
    } else {
        a % b
    }
}

pub open spec fn int_or_overflow(op: BinOp, n: int, l: i64, r: i64) -> ResV {
    if i64::MIN <= n <= i64::MAX {
        Ok(Val::Int(n as i64))
    } else {
        Err(ErrV::Overflow(op_name(op), Val::Int(l), Val::Int(r)))
    }
}

pub open spec fn uint_or_overflow(op: BinOp, n: int, l: u64, r: u64) -> ResV {
    if 0 <= n <= u64::MAX {
        Ok(Val::UInt(n as u64))
    } else {
        Err(ErrV::Overflow(op_name(op), Val::UInt(l), Val::UInt(r)))
    }
}

/// Arithmetic on two `int`s. `i64::MIN % -1` overflows as `i64::MIN / -1` does.
pub open spec fn int_arith(op: BinOp, l: i64, r: i64) -> ResV {
    match op {
        BinOp::Add => int_or_overflow(op, l + r, l, r),
        BinOp::Sub => int_or_overflow(op, l - r, l, r),
        BinOp::Mul => int_or_overflow(op, l * r, l, r),
        BinOp::Div => if r == 0 {
            Err(ErrV::DivisionByZero(Val::Int(l)))
        } else {
            int_or_overflow(op, quotient(l as int, r as int), l, r)
        },
        BinOp::Rem => if r == 0 {
            Err(ErrV::RemainderByZero(Val::Int(l)))
        } else if l == i64::MIN && r == -1 {
            Err(ErrV::Overflow(op_name(op), Val::Int(l), Val::Int(r)))
        } else {
            Ok(Val::Int(remainder(l as int, r as int) as i64))
        },
    }
}

/// Arithmetic on two `uint`s.
pub open spec fn uint_arith(op: BinOp, l: u64, r: u64) -> ResV {
    match op {
        BinOp::Add => uint_or_overflow(op, l + r, l, r),
        BinOp::Sub => uint_or_overflow(op, l - r, l, r),
        BinOp::Mul => uint_or_overflow(op, l * r, l, r),
        BinOp::Div => if r == 0 {
            Err(ErrV::DivisionByZero(Val::UInt(l)))
        } else {
            Ok(Val::UInt((l as int / r as int) as u64))
        },
        BinOp::Rem => if r == 0 {
            Err(ErrV::RemainderByZero(Val::UInt(l)))
        } else {
            Ok(Val::UInt((l as int % r as int) as u64))
        },
    }
}

pub open spec fn unsupported(op: BinOp, l: Val, r: Val) -> ResV {
    Err(ErrV::UnsupportedBinaryOperator(op_name(op), l, r))
}

/// Arithmetic on two durations.
pub open spec fn duration_arith(op: BinOp, l: int, r: int) -> ResV {
    let n = if op == BinOp::Add {
        l + r
    } else {
        l - r
    };
    if op != BinOp::Add && op != BinOp::Sub {
        unsupported(op, Val::Duration(l), Val::Duration(r))
    } else if in_duration_range(n) {
        Ok(Val::Duration(n))
    } else {
        Err(ErrV::Overflow(op_name(op), Val::Duration(l), Val::Duration(r)))
    }
}

/// A timestamp moved by a duration. The result keeps the offset, and must lie
/// between `0001-01-01T00:00:00Z` and `9999-12-31T23:59:59.999999999Z`.
pub open spec fn timestamp_shift(op: BinOp, t: Instant, d: int) -> ResV {
    let moved = if op == BinOp::Add {
        t.moved(d)
    } else {
        t.moved(-d)
    };
    if op != BinOp::Add && op != BinOp::Sub {
        unsupported(op, Val::Timestamp(t), Val::Duration(d))
    } else if in_timestamp_limits(moved) {
        Ok(Val::Timestamp(moved))
    } else {
        Err(ErrV::Overflow(op_name(op), Val::Timestamp(t), Val::Duration(d)))
    }
}

/// The operator on two doubles: remainder is not defined on them.
pub open spec fn double_arith(op: BinOp, l: u64, r: u64) -> OutV {
    if op == BinOp::Rem {
        OutV::Done(unsupported(op, Val::Double(l), Val::Double(r)))
    } else {
        OutV::Double(op, l, r)
    }
}

/// The operator on a pair of numbers, durations or timestamps that it takes, and
/// `None` for any other pair.
pub open spec fn numeric(op: BinOp, l: Val, r: Val) -> Option<OutV> {
    match (l, r) {
        (Val::Int(x), Val::Int(y)) => Some(OutV::Done(int_arith(op, x, y))),
        (Val::UInt(x), Val::UInt(y)) => Some(OutV::Done(uint_arith(op, x, y))),
        (Val::Double(x), Val::Double(y)) => Some(double_arith(op, x, y)),
        (Val::Duration(x), Val::Duration(y)) => Some(OutV::Done(duration_arith(op, x, y))),
        (Val::Timestamp(t), Val::Duration(d)) => Some(OutV::Done(timestamp_shift(op, t, d))),
        (Val::Duration(d), Val::Timestamp(t)) => if op == BinOp::Add {
            Some(OutV::Done(timestamp_shift(op, t, d)))
        } else {
            None
        },
        (Val::Timestamp(t), Val::Timestamp(u)) => if op == BinOp::Sub {
            Some(OutV::Done(Ok(Val::Duration(t.since(u)))))
        } else {
            None
        },
        _ => None,
    }
}

/// The operator as the `+ - * / %` of values give it: a pair that it is not
/// defined on is `UnsupportedBinaryOperator`, with both operands.
pub open spec fn native(op: BinOp, l: Val, r: Val) -> OutV {
    match (l, r) {
        (Val::Int(x), Val::Int(y)) => OutV::Done(int_arith(op, x, y)),
        (Val::UInt(x), Val::UInt(y)) => OutV::Done(uint_arith(op, x, y)),
        (Val::Double(x), Val::Double(y)) => double_arith(op, x, y),
        (Val::Duration(x), Val::Duration(y)) => OutV::Done(duration_arith(op, x, y)),
        (Val::Timestamp(t), Val::Duration(d)) => OutV::Done(timestamp_shift(op, t, d)),
        (Val::Duration(d), Val::Timestamp(t)) => if op == BinOp::Add {
            OutV::Done(
                match timestamp_shift(op, t, d) {
                    Ok(v) => Ok(v),
                    Err(_) => Err(ErrV::Overflow(op_name(op), l, r)),
                },
            )
        } else {
            OutV::Done(unsupported(op, l, r))
        },
        (Val::Timestamp(t), Val::Timestamp(u)) => if op == BinOp::Sub {
            OutV::Done(Ok(Val::Duration(t.since(u))))
        } else {
            OutV::Done(unsupported(op, l, r))
        },
        (Val::List(x), Val::List(y)) => if op == BinOp::Add {
            OutV::Done(Ok(Val::List(x + y)))
        } else {
            OutV::Done(unsupported(op, l, r))
        },
        (Val::Str(x), Val::Str(y)) => if op == BinOp::Add {
            OutV::Done(Ok(Val::Str(x + y)))
        } else {
            OutV::Done(unsupported(op, l, r))
        },
        (Val::Bytes(x), Val::Bytes(y)) => if op == BinOp::Add {
            OutV::Done(Ok(Val::Bytes(x + y)))
        } else {
            OutV::Done(unsupported(op, l, r))
        },
        _ => OutV::Done(unsupported(op, l, r)),
    }
}

/// Whether the receiver answers an operand that it cannot take with
/// `NoSuchOverload`: `int` under every operator, `list` under `+`, `duration`
/// under `-`.
pub open spec fn mismatch_is_overload(op: BinOp, l: Val) -> bool {
    ||| l is Int
    ||| l is List && op == BinOp::Add
    ||| l is Duration && op == BinOp::Sub
}

/// An operator as an expression uses it: [`native`], but with the receiver's own
/// answer to an operand that it cannot take, and an overflow of duration plus
/// timestamp reported with the timestamp first.
pub open spec fn binary(op: BinOp, l: Val, r: Val) -> OutV {
    match native(op, l, r) {
        OutV::Done(Err(ErrV::Overflow(name, Val::Duration(d), Val::Timestamp(t)))) => OutV::Done(
            Err(ErrV::Overflow(name, Val::Timestamp(t), Val::Duration(d))),
        ),
        OutV::Done(Err(ErrV::UnsupportedBinaryOperator(_, _, _))) => if mismatch_is_overload(
            op,
            l,
        ) {
            OutV::Done(Err(ErrV::NoSuchOverload))
        } else {
            native(op, l, r)
        },
        other => other,
    }
}

/// Unary minus. On a `bool` it is "not".
pub open spec fn negate(v: Val) -> ResV {
    match v {
        Val::Int(i) => if i == i64::MIN {
            Err(ErrV::Overflow("negate"@, Val::Int(i), Val::Int(0)))
        } else {
            Ok(Val::Int((-i) as i64))
        },
        Val::Double(d) => Ok(Val::Double(negated(d))),
        Val::Bool(b) => Ok(Val::Bool(!b)),
        Val::Duration(d) => Ok(Val::Duration(-d)),
        _ => Err(ErrV::NoSuchOverload),
    }
}

// ---------------------------------------------------------------------------
// Indexing, membership, length, iteration.

/// The element of a list at an `int` or a `uint`.
pub open spec fn list_index(items: Seq<Val>, k: Val) -> ResV {
    match k {
        Val::Int(i) => if 0 <= i < items.len() {
            Ok(items[i as int])
        } else {
            Err(ErrV::IndexOutOfBounds(k))
        },
        Val::UInt(u) => if u < items.len() {
            Ok(items[u as int])
        } else {
            Err(ErrV::IndexOutOfBounds(k))
        },
        _ => Err(ErrV::UnexpectedType(kind_name(val_type(k)), "int|uint"@)),
    }
}

/// `c[k]`.
pub open spec fn index(c: Val, k: Val) -> ResV {
    match c {
        Val::List(items) => list_index(items, k),
        Val::CelMap(m) => if !is_key(k) {
            Err(ErrV::UnsupportedKeyType(k))
        } else {
            match lookup_numeric(m, k) {
                Some(v) => Ok(v),
                None => Err(ErrV::NoSuchKey(key_text(k))),
            }
        },
        Val::Struct(_, f) => match k {
            Val::Str(name) => match lookup(f, k) {
                Some(v) => Ok(v),
                None => Err(ErrV::NoSuchKey(name)),
            },
            _ => Err(ErrV::UnsupportedIndex(k, c)),
        },
        _ => Err(ErrV::NoSuchOverload),
    }
}

/// `c.name`.
pub open spec fn field(c: Val, name: Seq<char>) -> ResV {
    index(c, Val::Str(name))
}

/// Whether an element equals `k`.
pub open spec fn has_element(items: Seq<Val>, k: Val) -> bool {
    exists|i: int| 0 <= i < items.len() && val_eq(#[trigger] items[i], k)
}

/// `k in c`.
pub open spec fn contains(c: Val, k: Val) -> Result<bool, ErrV> {
    match c {
        Val::List(items) => Ok(has_element(items, k)),
        Val::CelMap(m) => if is_key(k) {
            Ok(lookup(m, k) is Some)
        } else {
            Err(ErrV::UnsupportedKeyType(k))
        },
        _ => Err(ErrV::NoSuchOverload),
    }
}

/// What a comprehension iterates over: the elements of a list, the keys of a map.
pub open spec fn iterated(v: Val) -> Result<Seq<Val>, ErrV> {
    match v {
        Val::List(items) => Ok(items),
        Val::CelMap(m) => Ok(Seq::new(m.len(), |i: int| m[i].0)),
        _ => Err(ErrV::NoSuchOverload),
    }
}

/// The size of a list, a map, a string in bytes, or a byte string.
pub open spec fn val_len(v: Val) -> Option<int> {
    match v {
        Val::List(items) => Some(items.len() as int),
        Val::CelMap(m) => Some(m.len() as int),
        Val::Str(s) => Some(encode_utf8(s).len() as int),
        Val::Bytes(b) => Some(b.len() as int),
        _ => None,
    }
}

} // verus!
