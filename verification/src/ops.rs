//! Arithmetic on values.

use crate::double::negate_double;
use crate::error::{result_view, ExecutionError, ResolveResult};
use crate::map::CelMap;
use crate::model::{
    binary, double_arith, duration_arith, int_arith, mismatch_is_overload, native, negate, numeric,
    op_name, timestamp_shift, uint_arith, unsupported, BinOp, ErrV, OutV, Val,
};
use crate::time::{Duration, Timestamp};
use crate::value::{fields_view, struct_view, CelStruct, Opaque, Value};
use std::sync::Arc;
use vstd::prelude::*;
use vstd::string::StringExecFns;

verus! {

/// What an arithmetic operator comes to.
#[derive(Debug)]
pub enum Outcome {
    /// A value or an error.
    Done(ResolveResult),
    /// The operation on two doubles, given by their bits, which is IEEE 754's. The
    /// result is the double that it gives.
    Double(BinOp, u64, u64),
}

impl View for Outcome {
    type V = OutV;

    open spec fn view(&self) -> OutV {
        match *self {
            Outcome::Done(r) => OutV::Done(result_view(r)),
            Outcome::Double(op, l, r) => OutV::Double(op, l, r),
        }
    }
}

impl BinOp {
    /// The name that errors give the operator.
    pub fn name(self) -> (r: &'static str)
        ensures
            r@ == op_name(self),
    {
        match self {
            BinOp::Add => "add",
            BinOp::Sub => "sub",
            BinOp::Mul => "mul",
            BinOp::Div => "div",
            BinOp::Rem => "rem",
        }
    }
}

/// Arithmetic on two `int`s.
pub fn int_binop(op: BinOp, l: i64, r: i64) -> (out: ResolveResult)
    ensures
        result_view(out) == int_arith(op, l, r),
{
    if r == 0 {
        match op {
            BinOp::Div => {
                return Err(ExecutionError::DivisionByZero(Value::Int(l)));
            },
            BinOp::Rem => {
                return Err(ExecutionError::RemainderByZero(Value::Int(l)));
            },
            _ => {},
        }
    }
    let v = match op {
        BinOp::Add => l.checked_add(r),
        BinOp::Sub => l.checked_sub(r),
        BinOp::Mul => l.checked_mul(r),
        BinOp::Div => l.checked_div(r),
        BinOp::Rem => l.checked_rem(r),
    };
    match v {
        Some(v) => Ok(Value::Int(v)),
        None => Err(ExecutionError::Overflow(op.name(), Value::Int(l), Value::Int(r))),
    }
}

/// Arithmetic on two `uint`s.
pub fn uint_binop(op: BinOp, l: u64, r: u64) -> (out: ResolveResult)
    ensures
        result_view(out) == uint_arith(op, l, r),
{
    if r == 0 {
        match op {
            BinOp::Div => {
                return Err(ExecutionError::DivisionByZero(Value::UInt(l)));
            },
            BinOp::Rem => {
                return Err(ExecutionError::RemainderByZero(Value::UInt(l)));
            },
            _ => {},
        }
    }
    let v = match op {
        BinOp::Add => l.checked_add(r),
        BinOp::Sub => l.checked_sub(r),
        BinOp::Mul => l.checked_mul(r),
        BinOp::Div => l.checked_div(r),
        BinOp::Rem => l.checked_rem(r),
    };
    match v {
        Some(v) => Ok(Value::UInt(v)),
        None => Err(ExecutionError::Overflow(op.name(), Value::UInt(l), Value::UInt(r))),
    }
}

/// The operation on two doubles. There is no remainder of doubles.
pub fn float_binop(op: BinOp, l: u64, r: u64) -> (out: Outcome)
    ensures
        out@ == double_arith(op, l, r),
{
    match op {
        BinOp::Rem => Outcome::Done(
            Err(
                ExecutionError::UnsupportedBinaryOperator(
                    op.name(),
                    Value::Float(l),
                    Value::Float(r),
                ),
            ),
        ),
        _ => Outcome::Double(op, l, r),
    }
}

/// Arithmetic on two durations.
pub fn duration_binop(op: BinOp, l: Duration, r: Duration) -> (out: ResolveResult)
    ensures
        result_view(out) == duration_arith(op, l@, r@),
{
    let v = match op {
        BinOp::Add => l.checked_add(r),
        BinOp::Sub => l.checked_sub(r),
        _ => {
            return Err(
                ExecutionError::UnsupportedBinaryOperator(
                    op.name(),
                    Value::Duration(l),
                    Value::Duration(r),
                ),
            );
        },
    };
    match v {
        Some(d) => Ok(Value::Duration(d)),
        None => Err(ExecutionError::Overflow(op.name(), Value::Duration(l), Value::Duration(r))),
    }
}

/// A timestamp moved by a duration. The result must be in the calendar's range and
/// within the limits of CEL timestamps.
pub fn timestamp_duration_binop(op: BinOp, l: Timestamp, r: Duration) -> (out: ResolveResult)
    ensures
        result_view(out) == timestamp_shift(op, l@, r@),
{
    let moved = match op {
        BinOp::Add => l.checked_add(r),
        BinOp::Sub => l.checked_sub(r),
        _ => {
            return Err(
                ExecutionError::UnsupportedBinaryOperator(
                    op.name(),
                    Value::Timestamp(l),
                    Value::Duration(r),
                ),
            );
        },
    };
    if let Some(t) = moved {
        if t.is_within_limits() {
            return Ok(Value::Timestamp(t));
        }
    }
    Err(ExecutionError::Overflow(op.name(), Value::Timestamp(l), Value::Duration(r)))
}

/// The bytes of both.
pub(crate) fn concat_bytes(l: &Vec<u8>, r: &Vec<u8>) -> (out: Vec<u8>)
    ensures
        out@ == l@ + r@,
{
    let mut out: Vec<u8> = Vec::new();
    let mut i: usize = 0;
    while i < l.len()
        invariant
            i <= l@.len(),
            out@ == l@.take(i as int),
        decreases l@.len() - i,
    {
        out.push(l[i]);
        assert(out@ =~= l@.take(i + 1));
        i = i + 1;
    }
    let mut j: usize = 0;
    assert(out@ =~= l@ + r@.take(0));
    while j < r.len()
        invariant
            j <= r@.len(),
            out@ == l@ + r@.take(j as int),
        decreases r@.len() - j,
    {
        out.push(r[j]);
        assert(out@ =~= l@ + r@.take(j + 1));
        j = j + 1;
    }
    assert(r@.take(j as int) =~= r@);
    out
}

fn unsupported_op(op: BinOp, l: Value, r: Value) -> (out: Outcome)
    ensures
        out@ == OutV::Done(unsupported(op, l@, r@)),
{
    Outcome::Done(Err(ExecutionError::UnsupportedBinaryOperator(op.name(), l, r)))
}

/// The operators that are defined on two values of numeric or temporal type, and
/// `None` for any other pair.
pub fn numeric_binop(op: BinOp, lhs: &Value, rhs: &Value) -> (r: Option<Outcome>)
    ensures
        match r {
            Some(out) => numeric(op, lhs@, rhs@) == Some(out@),
            None => numeric(op, lhs@, rhs@) is None,
        },
{
    let l = lhs.unpack();
    let r = rhs.unpack();
    match (&l, &r) {
        (Value::Int(x), Value::Int(y)) => Some(Outcome::Done(int_binop(op, *x, *y))),
        (Value::UInt(x), Value::UInt(y)) => Some(Outcome::Done(uint_binop(op, *x, *y))),
        (Value::Float(x), Value::Float(y)) => Some(float_binop(op, *x, *y)),
        (Value::Duration(x), Value::Duration(y)) => Some(Outcome::Done(duration_binop(op, *x, *y))),
        (Value::Timestamp(x), Value::Duration(y)) => Some(
            Outcome::Done(timestamp_duration_binop(op, *x, *y)),
        ),
        (Value::Duration(x), Value::Timestamp(y)) => match op {
            BinOp::Add => Some(Outcome::Done(timestamp_duration_binop(op, *y, *x))),
            _ => None,
        },
        (Value::Timestamp(x), Value::Timestamp(y)) => match op {
            BinOp::Sub => Some(Outcome::Done(Ok(Value::Duration(x.since(*y))))),
            _ => None,
        },
        _ => None,
    }
}

/// The operator on two values: `UnsupportedBinaryOperator` where it is not defined.
fn native_op(op: BinOp, lhs: Value, rhs: Value) -> (out: Outcome)
    ensures
        out@ == native(op, lhs@, rhs@),
{
    let l = lhs.into_public();
    let r = rhs.into_public();
    match (l, r) {
        (Value::Int(x), Value::Int(y)) => Outcome::Done(int_binop(op, x, y)),
        (Value::UInt(x), Value::UInt(y)) => Outcome::Done(uint_binop(op, x, y)),
        (Value::Float(x), Value::Float(y)) => float_binop(op, x, y),
        (Value::Duration(x), Value::Duration(y)) => Outcome::Done(duration_binop(op, x, y)),
        (Value::Timestamp(x), Value::Duration(y)) => Outcome::Done(
            timestamp_duration_binop(op, x, y),
        ),
        (Value::Duration(x), Value::Timestamp(y)) => match op {
            BinOp::Add => match timestamp_duration_binop(op, y, x) {
                Ok(v) => Outcome::Done(Ok(v)),
                Err(_) => Outcome::Done(
                    Err(
                        ExecutionError::Overflow(
                            op.name(),
                            Value::Duration(x),
                            Value::Timestamp(y),
                        ),
                    ),
                ),
            },
            _ => unsupported_op(op, Value::Duration(x), Value::Timestamp(y)),
        },
        (Value::Timestamp(x), Value::Timestamp(y)) => match op {
            BinOp::Sub => Outcome::Done(Ok(Value::Duration(x.since(y)))),
            _ => unsupported_op(op, Value::Timestamp(x), Value::Timestamp(y)),
        },
        (Value::List(x), Value::List(y)) => match op {
            BinOp::Add => Outcome::Done(Ok(Value::List(x.concat(&y)))),
            _ => unsupported_op(op, Value::List(x), Value::List(y)),
        },
        (Value::String(x), Value::String(y)) => match op {
            BinOp::Add => {
                let mut s: String = (*x).clone();
                s.append(y.as_str());
                Outcome::Done(Ok(Value::String(Arc::new(s))))
            },
            _ => unsupported_op(op, Value::String(x), Value::String(y)),
        },
        (Value::Bytes(x), Value::Bytes(y)) => match op {
            BinOp::Add => Outcome::Done(Ok(Value::Bytes(Arc::new(concat_bytes(&x, &y))))),
            _ => unsupported_op(op, Value::Bytes(x), Value::Bytes(y)),
        },
        (l, r) => unsupported_op(op, l, r),
    }
}

/// Whether an operand that `op` cannot take makes the receiver answer
/// `NoSuchOverload` rather than `UnsupportedBinaryOperator`.
pub fn mismatch_is_no_such_overload(op: BinOp, value: &Value) -> (r: bool)
    ensures
        r == mismatch_is_overload(op, value@),
{
    let v = value.unpack();
    match &v {
        Value::Int(_) => true,
        Value::List(_) => match op {
            BinOp::Add => true,
            _ => false,
        },
        Value::Duration(_) => match op {
            BinOp::Sub => true,
            _ => false,
        },
        _ => false,
    }
}

/// An outcome with the receiver's own answer to an operand that it cannot take.
fn binop_mismatch_flag(no_such: bool, out: Outcome) -> (r: Outcome)
    ensures
        r@ == match out@ {
            OutV::Done(Err(ErrV::UnsupportedBinaryOperator(_, _, _))) => if no_such {
                OutV::Done(Err(ErrV::NoSuchOverload))
            } else {
                out@
            },
            _ => out@,
        },
{
    match out {
        Outcome::Done(Err(ExecutionError::UnsupportedBinaryOperator(op, l, r))) => if no_such {
            Outcome::Done(Err(ExecutionError::NoSuchOverload))
        } else {
            Outcome::Done(Err(ExecutionError::UnsupportedBinaryOperator(op, l, r)))
        },
        other => other,
    }
}

/// An arithmetic operator of an expression.
pub fn binary_values(op: BinOp, lhs: Value, rhs: Value) -> (r: Outcome)
    ensures
        r@ == binary(op, lhs@, rhs@),
{
    let no_such = mismatch_is_no_such_overload(op, &lhs);
    if let Some(out) = numeric_binop(op, &lhs, &rhs) {
        return binop_mismatch_flag(no_such, out);
    }
    binop_mismatch_flag(no_such, native_op(op, lhs, rhs))
}

/// [`binary_values`] on borrowed operands.
pub fn binary_values_ref(op: BinOp, lhs: &Value, rhs: &Value) -> (r: Outcome)
    ensures
        r@ == binary(op, lhs@, rhs@),
{
    binary_values(op, lhs.clone(), rhs.clone())
}

/// Whether a value has a leaf: a duration and a timestamp do if their nanoseconds
/// fit in 64 bits, and a map, an optional and a struct if what they hold has. A
/// list always does.
pub open spec fn leafable(v: Val) -> bool
    decreases v,
{
    match v {
        Val::Duration(d) => i64::MIN <= d <= i64::MAX,
        Val::Timestamp(t) => i64::MIN <= t.nanos <= i64::MAX,
        Val::CelMap(m) => forall|i: int| 0 <= i < m.len() ==> leafable((#[trigger] m[i]).1),
        Val::Struct(_, f) => forall|i: int| 0 <= i < f.len() ==> leafable((#[trigger] f[i]).1),
        Val::Optional(Some(x)) => leafable(*x),
        _ => true,
    }
}

/// Whether a value has a leaf.
pub fn has_leaf(v: &Value) -> (r: bool)
    ensures
        r == leafable(v@),
    decreases v@, 1nat,
{
    let p = v.unpack();
    match &p {
        Value::Duration(d) => d.num_nanoseconds().is_some(),
        Value::Timestamp(t) => t.num_nanoseconds().is_some(),
        Value::CelMap(m) => map_has_leaf(m),
        Value::Struct(s) => struct_has_leaf(s),
        Value::Opaque(o) => match &**o {
            Opaque::Optional(opt) => match opt.value() {
                Some(inner) => {
                    let ghost boxed = v@->Optional_0;
                    assert(decreases_to!(v@ => boxed));
                    assert(decreases_to!(v@ => *boxed->0));
                    has_leaf(inner)
                },
                None => true,
            },
            _ => true,
        },
        _ => true,
    }
}

fn map_has_leaf(m: &CelMap) -> (r: bool)
    ensures
        r == leafable(Val::CelMap(m@)),
    decreases Val::CelMap(m@), 0nat,
{
    let n: usize = m.len();
    let mut i: usize = 0;
    while i < n
        invariant
            i <= n,
            n == m@.len(),
            forall|j: int| 0 <= j < i ==> leafable((#[trigger] m@[j]).1),
        decreases n - i,
    {
        if let Some((_, v)) = m.entry(i) {
            let ghost whole = Val::CelMap(m@);
            assert(decreases_to!(whole => whole->CelMap_0));
            assert(decreases_to!(whole->CelMap_0 => whole->CelMap_0[i as int]));
            assert(decreases_to!(whole => whole->CelMap_0[i as int].1));
            if !has_leaf(&v) {
                assert(!leafable(m@[i as int].1));
                return false;
            }
        }
        i = i + 1;
    }
    true
}

fn struct_has_leaf(s: &CelStruct) -> (r: bool)
    ensures
        r == leafable(struct_view(*s)),
    decreases struct_view(*s), 0nat,
{
    let fields = s.field_values();
    let ghost whole = struct_view(*s);
    let ghost f = fields_view(fields@);
    let n: usize = fields.len();
    let mut i: usize = 0;
    while i < n
        invariant
            i <= n,
            n == fields@.len(),
            f == fields_view(fields@),
            whole == struct_view(*s),
            whole matches Val::Struct(_, g) && g == f,
            forall|j: int| 0 <= j < i ==> leafable((#[trigger] f[j]).1),
        decreases n - i,
    {
        assert(fields@[i as int].1@ == f[i as int].1);
        assert(decreases_to!(whole => whole->Struct_1));
        assert(decreases_to!(whole->Struct_1 => whole->Struct_1[i as int]));
        assert(decreases_to!(whole => f[i as int].1));
        if !has_leaf(&fields[i].1) {
            assert(!leafable(f[i as int].1));
            return false;
        }
        i = i + 1;
    }
    true
}

/// What `+` on two values comes to. With an operand in interned form, and a leaf
/// for both, the addition is the runtime's, which answers as an expression does.
pub open spec fn value_add(l: Value, r: Value) -> OutV {
    if (l is Interned || r is Interned) && leafable(l@) && leafable(r@) {
        binary(BinOp::Add, l@, r@)
    } else {
        native(BinOp::Add, l@, r@)
    }
}

impl Value {
    /// `self + rhs`.
    pub fn add(self, rhs: Value) -> (r: Outcome)
        ensures
            r@ == value_add(self, rhs),
    {
        let interned = match (&self, &rhs) {
            (Value::Interned(_), _) => true,
            (_, Value::Interned(_)) => true,
            _ => false,
        };
        if interned && has_leaf(&self) && has_leaf(&rhs) {
            binary_values(BinOp::Add, self, rhs)
        } else {
            native_op(BinOp::Add, self, rhs)
        }
    }

    /// `self - rhs`.
    pub fn sub(self, rhs: Value) -> (r: Outcome)
        ensures
            r@ == native(BinOp::Sub, self@, rhs@),
    {
        native_op(BinOp::Sub, self, rhs)
    }

    /// `self * rhs`.
    pub fn mul(self, rhs: Value) -> (r: Outcome)
        ensures
            r@ == native(BinOp::Mul, self@, rhs@),
    {
        native_op(BinOp::Mul, self, rhs)
    }

    /// `self / rhs`.
    pub fn div(self, rhs: Value) -> (r: Outcome)
        ensures
            r@ == native(BinOp::Div, self@, rhs@),
    {
        native_op(BinOp::Div, self, rhs)
    }

    /// `self % rhs`.
    pub fn rem(self, rhs: Value) -> (r: Outcome)
        ensures
            r@ == native(BinOp::Rem, self@, rhs@),
    {
        native_op(BinOp::Rem, self, rhs)
    }
}

/// Unary minus.
pub fn value_negate(value: Value) -> (r: ResolveResult)
    ensures
        result_view(r) == negate(value@),
{
    match value.into_public() {
        Value::Int(i) => if i == i64::MIN {
            Err(ExecutionError::Overflow("negate", Value::Int(i), Value::Int(0)))
        } else {
            Ok(Value::Int(-i))
        },
        Value::Float(f) => Ok(Value::Float(negate_double(f))),
        Value::Bool(b) => Ok(Value::Bool(!b)),
        Value::Duration(d) => Ok(Value::Duration(d.negate())),
        _ => Err(ExecutionError::NoSuchOverload),
    }
}

} // verus!
