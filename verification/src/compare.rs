//! Equality and order of values.

use crate::double::{
    compare_doubles, double_eq, double_from_i64, double_from_u64, double_is_zero, int_order,
    order_i64, order_u64, Order,
};
use crate::error::{result_view, ExecutionError};
use crate::key::AsKeyRef;
use crate::list::ListRef;
use crate::map::{lemma_position, CelMap};
use crate::model::{
    accepts, compare, has_element, has_order, is_zero_val, leaf_eq, position, val_eq, val_order,
    CmpOp, Val,
};
use crate::runtime::binop::{leaf_equals_value, values_equal};
use crate::runtime::object::{root_view, W_Root};
use crate::text::{bytes_eq, compare_bytes, compare_strs, str_eq};
use crate::value::{held, opaque_view, Opaque, Value};
use std::cmp::Ordering;
use vstd::prelude::*;

verus! {

fn doubles_eq(a: u64, b: u64) -> (r: bool)
    ensures
        r == double_eq(a, b),
{
    match compare_doubles(a, b) {
        Some(Order::Equal) => true,
        _ => false,
    }
}

fn int_uint_order(i: i64, u: u64) -> (r: Order)
    ensures
        r == int_order(i as int, u as int),
{
    if i < 0 {
        Order::Less
    } else {
        order_u64(i as u64, u)
    }
}

/// `l == r`, given the leaves that the two are held as, if they are. Leaves are
/// compared as the runtime compares them, and so is a leaf with a public value.
pub open spec fn held_eq(l: Val, l_leaf: Option<W_Root>, r: Val, r_leaf: Option<W_Root>) -> bool {
    match (l_leaf, r_leaf) {
        (Some(a), Some(b)) => leaf_eq(root_view(a), root_view(b)),
        (Some(a), None) => leaf_eq(root_view(a), r),
        (None, Some(b)) => leaf_eq(root_view(b), l),
        (None, None) => val_eq(l, r),
    }
}

/// `a == b`.
pub fn value_eq(a: &Value, b: &Value) -> (r: bool)
    ensures
        r == held_eq(a@, held(*a), b@, held(*b)),
{
    match (a, b) {
        (Value::Interned(x), Value::Interned(y)) => values_equal(x, y),
        (Value::Interned(x), _) => leaf_equals_value(x, b),
        (_, Value::Interned(y)) => leaf_equals_value(y, a),
        _ => same_value(a, b),
    }
}

/// Whether two values are equal in public form.
pub fn same_value(a: &Value, b: &Value) -> (r: bool)
    ensures
        r == val_eq(a@, b@),
    decreases a@, 2nat,
{
    match (a, b) {
        (Value::Interned(_), _) => {
            let p = a.unpack();
            let q = b.unpack();
            public_eq(&p, &q)
        },
        (_, Value::Interned(_)) => {
            let q = b.unpack();
            public_eq(a, &q)
        },
        _ => public_eq(a, b),
    }
}

/// [`same_value`] on public forms.
fn public_eq(a: &Value, b: &Value) -> (r: bool)
    requires
        !(a is Interned),
        !(b is Interned),
    ensures
        r == val_eq(a@, b@),
    decreases a@, 1nat,
{
    match (a, b) {
        (Value::CelMap(x), Value::CelMap(y)) => map_eq(x, y),
        (Value::List(x), Value::List(y)) => list_eq(x, y),
        (Value::Int(x), Value::Int(y)) => *x == *y,
        (Value::UInt(x), Value::UInt(y)) => *x == *y,
        (Value::Float(x), Value::Float(y)) => doubles_eq(*x, *y),
        (Value::String(x), Value::String(y)) => str_eq(x.as_str(), y.as_str()),
        (Value::Bytes(x), Value::Bytes(y)) => bytes_eq(x.as_slice(), y.as_slice()),
        (Value::Bool(x), Value::Bool(y)) => *x == *y,
        (Value::Null, Value::Null) => true,
        (Value::Duration(x), Value::Duration(y)) => x.order(*y) == Order::Equal,
        (Value::Timestamp(x), Value::Timestamp(y)) => x.order(*y) == Order::Equal,
        (Value::Int(x), Value::UInt(y)) => int_uint_order(*x, *y) == Order::Equal,
        (Value::Int(x), Value::Float(y)) => doubles_eq(double_from_i64(*x), *y),
        (Value::UInt(x), Value::Int(y)) => int_uint_order(*y, *x) == Order::Equal,
        (Value::UInt(x), Value::Float(y)) => doubles_eq(double_from_u64(*x), *y),
        (Value::Float(x), Value::Int(y)) => doubles_eq(*x, double_from_i64(*y)),
        (Value::Float(x), Value::UInt(y)) => doubles_eq(*x, double_from_u64(*y)),
        (Value::Opaque(x), Value::Opaque(y)) => opaque_eq(x, y),
        _ => false,
    }
}

/// Equality of opaque values: of one type, and equal as that type has it.
pub fn opaque_eq(x: &Opaque, y: &Opaque) -> (r: bool)
    ensures
        r == val_eq(opaque_view(*x), opaque_view(*y)),
    decreases opaque_view(*x), 0nat,
{
    match (x, y) {
        (Opaque::Optional(p), Opaque::Optional(q)) => match (p.value(), q.value()) {
            (None, None) => true,
            (Some(v), Some(w)) => same_value(v, w),
            _ => false,
        },
        (Opaque::Type(s), Opaque::Type(t)) => s.same(t),
        (Opaque::Host(g), Opaque::Host(h)) => str_eq(
            g.runtime_type.as_str(),
            h.runtime_type.as_str(),
        ) && g.token == h.token,
        _ => false,
    }
}

/// Element by element, whatever buffers the two lists are over.
fn list_eq(x: &ListRef, y: &ListRef) -> (r: bool)
    ensures
        r == val_eq(Val::List(x@), Val::List(y@)),
    decreases Val::List(x@), 0nat,
{
    if x.len() != y.len() {
        return false;
    }
    let n: usize = x.len();
    let mut i: usize = 0;
    while i < n
        invariant
            i <= n,
            n == x@.len(),
            x@.len() == y@.len(),
            forall|j: int| 0 <= j < i ==> val_eq(#[trigger] x@[j], y@[j]),
        decreases n - i,
    {
        match (x.get(i), y.get(i)) {
            (Some(v), Some(w)) => {
                let ghost whole = Val::List(x@);
                assert(decreases_to!(whole => whole->List_0));
                assert(decreases_to!(whole->List_0 => whole->List_0[i as int]));
                if !same_value(&v, &w) {
                    assert(!val_eq(x@[i as int], y@[i as int]));
                    return false;
                }
            },
            _ => {},
        }
        i = i + 1;
    }
    true
}

/// Entry by entry, whatever tables the two maps are over.
fn map_eq(x: &CelMap, y: &CelMap) -> (r: bool)
    ensures
        r == val_eq(Val::CelMap(x@), Val::CelMap(y@)),
    decreases Val::CelMap(x@), 0nat,
{
    if x.len() != y.len() {
        return false;
    }
    let n: usize = x.len();
    let mut i: usize = 0;
    while i < n
        invariant
            i <= n,
            n == x@.len(),
            x@.len() == y@.len(),
            forall|j: int|
                0 <= j < i ==> {
                    let p = position(y@, (#[trigger] x@[j]).0);
                    0 <= p < y@.len() && val_eq(x@[j].1, y@[p].1)
                },
        decreases n - i,
    {
        if let Some((k, v)) = x.entry(i) {
            proof {
                lemma_position(y@, k@);
                assert(x@[i as int].0 == k@);
            }
            match y.get_exact(AsKeyRef::as_keyref(&k)) {
                None => {
                    return false;
                },
                Some(w) => {
                    assert(decreases_to!(Val::CelMap(x@) => x@[i as int].1));
                    if !same_value(&v, &w) {
                        return false;
                    }
                },
            }
        }
        i = i + 1;
    }
    let mut j: usize = 0;
    while j < n
        invariant
            j <= n,
            n == x@.len(),
            x@.len() == y@.len(),
            forall|i: int|
                0 <= i < j ==> {
                    let p = position(x@, (#[trigger] y@[i]).0);
                    0 <= p < x@.len() && val_eq(x@[p].1, y@[i].1)
                },
        decreases n - j,
    {
        if let Some((k, w)) = y.entry(j) {
            proof {
                lemma_position(x@, k@);
                assert(y@[j as int].0 == k@);
            }
            match x.get_exact(AsKeyRef::as_keyref(&k)) {
                None => {
                    return false;
                },
                Some(v) => {
                    let ghost p = position(x@, k@);
                    assert(decreases_to!(Val::CelMap(x@) => x@[p].1));
                    if !same_value(&v, &w) {
                        return false;
                    }
                },
            }
        }
        j = j + 1;
    }
    true
}

/// How two values are ordered, if they are.
pub fn value_order(a: &Value, b: &Value) -> (r: Option<Order>)
    ensures
        r == val_order(a@, b@),
{
    let p = a.unpack();
    let q = b.unpack();
    match (&p, &q) {
        (Value::Int(x), Value::Int(y)) => Some(order_i64(*x, *y)),
        (Value::UInt(x), Value::UInt(y)) => Some(order_u64(*x, *y)),
        (Value::Float(x), Value::Float(y)) => compare_doubles(*x, *y),
        (Value::String(x), Value::String(y)) => Some(compare_strs(x.as_str(), y.as_str())),
        (Value::Bytes(x), Value::Bytes(y)) => Some(compare_bytes(x.as_slice(), y.as_slice())),
        (Value::Bool(x), Value::Bool(y)) => Some(
            if *x == *y {
                Order::Equal
            } else if *y {
                Order::Less
            } else {
                Order::Greater
            },
        ),
        (Value::Null, Value::Null) => Some(Order::Equal),
        (Value::Duration(x), Value::Duration(y)) => Some(x.order(*y)),
        (Value::Timestamp(x), Value::Timestamp(y)) => Some(x.order(*y)),
        (Value::Int(x), Value::UInt(y)) => Some(int_uint_order(*x, *y)),
        (Value::UInt(x), Value::Int(y)) => Some(int_uint_order(*y, *x).reverse()),
        (Value::Int(x), Value::Float(y)) => compare_doubles(double_from_i64(*x), *y),
        (Value::UInt(x), Value::Float(y)) => compare_doubles(double_from_u64(*x), *y),
        (Value::Float(x), Value::Int(y)) => compare_doubles(*x, double_from_i64(*y)),
        (Value::Float(x), Value::UInt(y)) => compare_doubles(*x, double_from_u64(*y)),
        _ => None,
    }
}

/// Whether the ordering operators accept the value on their left.
pub fn has_comparer(value: &Value) -> (r: bool)
    ensures
        r == has_order(value@),
{
    let p = value.unpack();
    match p {
        Value::Int(_)
        | Value::UInt(_)
        | Value::Float(_)
        | Value::String(_)
        | Value::Bytes(_)
        | Value::Bool(_)
        | Value::Duration(_)
        | Value::Timestamp(_) => true,
        _ => false,
    }
}

/// Whether the operator accepts the order.
pub fn op_accepts(op: CmpOp, o: Order) -> (r: bool)
    ensures
        r == accepts(op, o),
{
    match op {
        CmpOp::Less => o == Order::Less,
        CmpOp::LessEquals => o != Order::Greater,
        CmpOp::Greater => o == Order::Greater,
        CmpOp::GreaterEquals => o != Order::Less,
    }
}

/// An ordering operator on two values.
pub fn compare_values(op: CmpOp, lhs: &Value, rhs: &Value) -> (r: Result<Value, ExecutionError>)
    ensures
        result_view(r) == compare(op, lhs@, rhs@),
{
    if !has_comparer(lhs) {
        return Err(ExecutionError::NoSuchOverload);
    }
    match value_order(lhs, rhs) {
        Some(o) => Ok(Value::Bool(op_accepts(op, o))),
        None => Err(ExecutionError::NoSuchOverload),
    }
}

impl PartialEq for Value {
    fn eq(&self, other: &Value) -> (r: bool) {
        value_eq(self, other)
    }
}

impl vstd::std_specs::cmp::PartialEqSpecImpl for Value {
    open spec fn obeys_eq_spec() -> bool {
        true
    }

    open spec fn eq_spec(&self, other: &Value) -> bool {
        held_eq(self@, held(*self), other@, held(*other))
    }
}

impl PartialOrd for Value {
    fn partial_cmp(&self, other: &Value) -> (r: Option<Ordering>) {
        match value_order(self, other) {
            Some(Order::Less) => Some(Ordering::Less),
            Some(Order::Equal) => Some(Ordering::Equal),
            Some(Order::Greater) => Some(Ordering::Greater),
            None => None,
        }
    }
}

impl vstd::std_specs::cmp::PartialOrdSpecImpl for Value {
    open spec fn obeys_partial_cmp_spec() -> bool {
        true
    }

    open spec fn partial_cmp_spec(&self, other: &Value) -> Option<Ordering> {
        match val_order(self@, other@) {
            Some(Order::Less) => Some(Ordering::Less),
            Some(Order::Equal) => Some(Ordering::Equal),
            Some(Order::Greater) => Some(Ordering::Greater),
            None => None,
        }
    }
}

impl PartialEq for ListRef {
    fn eq(&self, other: &ListRef) -> (r: bool) {
        list_eq(self, other)
    }
}

impl vstd::std_specs::cmp::PartialEqSpecImpl for ListRef {
    open spec fn obeys_eq_spec() -> bool {
        true
    }

    open spec fn eq_spec(&self, other: &ListRef) -> bool {
        val_eq(Val::List(self@), Val::List(other@))
    }
}

impl PartialEq for CelMap {
    fn eq(&self, other: &CelMap) -> (r: bool) {
        map_eq(self, other)
    }
}

impl vstd::std_specs::cmp::PartialEqSpecImpl for CelMap {
    open spec fn obeys_eq_spec() -> bool {
        true
    }

    open spec fn eq_spec(&self, other: &CelMap) -> bool {
        val_eq(Val::CelMap(self@), Val::CelMap(other@))
    }
}

impl ListRef {
    /// Whether an element equals `needle`.
    pub fn contains(&self, needle: &Value) -> (r: bool)
        ensures
            r == has_element(self@, needle@),
    {
        let n: usize = self.len();
        let mut i: usize = 0;
        while i < n
            invariant
                i <= n,
                n == self@.len(),
                forall|j: int| 0 <= j < i ==> !val_eq(#[trigger] self@[j], needle@),
            decreases n - i,
        {
            if let Some(v) = self.get(i) {
                if same_value(&v, needle) {
                    assert(val_eq(self@[i as int], needle@));
                    return true;
                }
            }
            i = i + 1;
        }
        false
    }
}

impl Value {
    /// Whether the value is the zero, or the empty one, of its type.
    pub fn is_zero(&self) -> (r: bool)
        ensures
            r == is_zero_val(self@),
    {
        let p = self.unpack();
        match &p {
            Value::List(v) => v.is_empty(),
            Value::CelMap(v) => v.is_empty(),
            Value::Int(i) => *i == 0,
            Value::UInt(u) => *u == 0,
            Value::Float(f) => double_is_zero(*f),
            Value::String(s) => s.as_str().is_empty(),
            Value::Bytes(b) => b.len() == 0,
            Value::Bool(b) => !*b,
            Value::Duration(d) => d.is_zero(),
            Value::Null => true,
            _ => false,
        }
    }
}

} // verus!
