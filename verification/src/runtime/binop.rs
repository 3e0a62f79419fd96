//! Arithmetic and comparison of leaves.

use crate::access::key_value;
use crate::compare::{has_comparer, same_value, value_order};
use crate::double::{negate_double, negated, Order};
use crate::error::{result_view, ExecutionError};
use crate::key::KeyRef;
use crate::list::{values_view, ListRef};
use crate::map::CelMap;
use crate::model::{
    accepts, has_order, int_arith, is_key, leaf_eq, leaf_found, lookup, op_name, position,
    position_from, uint_arith, val_order, BinOp, CmpOp, CoreType, ErrV, ReadError, TypeV, Val,
};
use crate::ops::{concat_bytes, int_binop, uint_binop};
use crate::runtime::convert::{
    hosted_row, hosted_window, intern_leaf, interned_of, interned_or_null, key_to_ref,
};
use crate::runtime::error::{raise, CelErrCode, ErrorSlot};
use crate::runtime::heap::{CelHeap, Space};
use crate::runtime::object::{
    bytes_payload, clone_ref, is_bool_leaf, list_leaf_view, list_len, made, map_leaf_view, map_len,
    new_bool, new_bytes, new_double, new_duration, new_int, new_list, new_null, new_string,
    new_timestamp, new_uint, ref_view, refs_view, root_view, CelClass, CelRef, Host, ListStrategy,
    MapStrategy, W_BytesObject, W_ListObject, W_NullObject, W_Root, W_StringObject,
};
use crate::text::{bytes_eq, compare_bytes, compare_strs, str_eq};
use crate::time::{Duration, Instant, Timestamp};
use crate::value::{HostObject, Opaque, TypeValue, Value};
use std::sync::Arc;
use vstd::prelude::*;
use vstd::string::StringExecFns;

verus! {

// ---------------------------------------------------------------------------
// Equality.

/// Something that the runtime can compare: a leaf, an unboxed integer, a value
/// that a host keeps, or nothing.
enum Node {
    Leaf(Arc<W_Root>),
    Int(i64),
    Public(Value),
    Nothing,
}

impl View for Node {
    type V = Val;

    closed spec fn view(&self) -> Val {
        match *self {
            Node::Leaf(w) => root_view(*w),
            Node::Int(i) => Val::Int(i),
            Node::Public(v) => v@,
            Node::Nothing => Val::Invalid(ReadError::NullPointer),
        }
    }
}

/// What comparing depends on.
enum Shape {
    /// A value without parts, but for a timestamp's offset.
    Scalar(Value),
    /// A list of references.
    Refs(Arc<W_Root>),
    /// A list of integers.
    Ints(Arc<W_Root>),
    List(ListRef),
    /// A map of references.
    Pairs(Arc<W_Root>),
    CelMap(CelMap),
    Empty,
    Present(Node),
    Class(CelClass),
    Other,
}

/// Whether two values are the same, but for a timestamp's offset.
spec fn same_scalar(a: Val, b: Val) -> bool {
    match (a, b) {
        (Val::Timestamp(x), Val::Timestamp(y)) => x.nanos == y.nanos && x.leap == y.leap,
        _ => a == b,
    }
}

/// Whether a value has no parts.
spec fn is_scalar(v: Val) -> bool {
    !(v is List) && !(v is CelMap) && !(v is Optional) && !(v is Struct) && !(v is Invalid)
}

/// Whether a shape is that of a value.
spec fn shape_of(s: Shape, v: Val) -> bool {
    match s {
        Shape::Scalar(x) => is_scalar(v) && is_scalar(x@) && same_scalar(x@, v) && !(
        x is Interned),
        Shape::Refs(w) => *w matches W_Root::List(l) && l.strategy_of() == ListStrategy::Object && v
            == Val::List(list_leaf_view(l)),
        Shape::Ints(w) => *w matches W_Root::List(l) && l.strategy_of() == ListStrategy::Ints && v
            == Val::List(list_leaf_view(l)),
        Shape::List(l) => v == Val::List(l@),
        Shape::Pairs(w) => *w matches W_Root::CelMap(m) && m.strategy_of() == MapStrategy::Object
            && v == Val::CelMap(map_leaf_view(m)),
        Shape::CelMap(m) => v == Val::CelMap(m@),
        Shape::Empty => v == Val::Optional(None),
        Shape::Present(n) => v == Val::Optional(Some(Box::new(n@))),
        Shape::Class(c) => v == Val::Type(TypeV::Class(c)),
        Shape::Other => v is Struct || v is Invalid,
    }
}

/// The shape of a public value.
fn public_shape(v: &Value) -> (r: Shape)
    ensures
        shape_of(r, v@),
{
    let p = v.unpack();
    match p {
        Value::List(l) => Shape::List(l),
        Value::CelMap(m) => Shape::CelMap(m),
        Value::Struct(_) => Shape::Other,
        Value::Opaque(o) => match &*o {
            Opaque::Optional(opt) => match opt.value() {
                None => Shape::Empty,
                Some(x) => Shape::Present(Node::Public(x.clone())),
            },
            _ => Shape::Scalar(Value::Opaque(o)),
        },
        other => Shape::Scalar(other),
    }
}

/// The shape of a leaf.
fn leaf_shape(w: &Arc<W_Root>) -> (r: Shape)
    ensures
        shape_of(r, root_view(**w)),
{
    match &**w {
        W_Root::Int(o) => Shape::Scalar(Value::Int(o.intval)),
        W_Root::UInt(o) => Shape::Scalar(Value::UInt(o.uintval)),
        W_Root::Double(o) => Shape::Scalar(Value::Float(o.floatval)),
        W_Root::Bool(o) => Shape::Scalar(Value::Bool(o.boolval != 0)),
        W_Root::Null(_) => Shape::Scalar(Value::Null),
        W_Root::Duration(o) => Shape::Scalar(Value::Duration(Duration::nanoseconds(o.nanos))),
        W_Root::Timestamp(o) => Shape::Scalar(
            Value::Timestamp(Timestamp::utc_from_nanoseconds(o.nanos)),
        ),
        W_Root::Str(o) => Shape::Scalar(Value::String(o.chars.clone())),
        W_Root::Bytes(o) => Shape::Scalar(Value::Bytes(o.data.bytes.clone())),
        W_Root::List(l) => {
            assert(root_view(**w) == Val::List(list_leaf_view(*l)));
            match l.strategy {
                ListStrategy::Object => Shape::Refs(w.clone()),
                ListStrategy::Ints => Shape::Ints(w.clone()),
                ListStrategy::Window => Shape::List(hosted_window(l)),
            }
        },
        W_Root::CelMap(m) => {
            assert(root_view(**w) == Val::CelMap(map_leaf_view(*m)));
            match m.strategy {
                MapStrategy::Object => Shape::Pairs(w.clone()),
                MapStrategy::Record => Shape::CelMap(hosted_row(m)),
            }
        },
        W_Root::Optional(o) => match &o.w_value {
            None => Shape::Empty,
            Some(x) => Shape::Present(Node::Leaf(x.clone())),
        },
        W_Root::Type(t) => match t.cls {
            CelClass::Int => core_type(CoreType::Int),
            CelClass::UInt => core_type(CoreType::UInt),
            CelClass::Double => core_type(CoreType::Double),
            CelClass::Bool => core_type(CoreType::Bool),
            CelClass::Str => core_type(CoreType::String),
            CelClass::Bytes => core_type(CoreType::Bytes),
            CelClass::Null => core_type(CoreType::Null),
            CelClass::List => core_type(CoreType::List),
            CelClass::CelMap => core_type(CoreType::CelMap),
            CelClass::Type => core_type(CoreType::Type),
            CelClass::Optional => core_type(CoreType::Optional),
            CelClass::Duration => core_type(CoreType::Duration),
            CelClass::Timestamp => core_type(CoreType::Timestamp),
            CelClass::Opaque | CelClass::Struct | CelClass::Frame | CelClass::IntColumn =>
                Shape::Class(t.cls),
        },
        W_Root::Opaque(o) => match &o.host {
            Some(Host::Object(h)) => Shape::Scalar(
                Value::Opaque(
                    Arc::new(
                        Opaque::Host(
                            HostObject { runtime_type: h.runtime_type.clone(), token: h.token },
                        ),
                    ),
                ),
            ),
            Some(Host::OpaqueType(n)) => Shape::Scalar(
                Value::Opaque(Arc::new(Opaque::Type(TypeValue::Opaque(n.clone())))),
            ),
            Some(Host::StructType(n)) => Shape::Scalar(
                Value::Opaque(Arc::new(Opaque::Type(TypeValue::Struct(n.clone())))),
            ),
            _ => Shape::Other,
        },
        W_Root::Struct(_) | W_Root::IntColumn(_) | W_Root::Frame(_) => Shape::Other,
    }
}

fn core_type(t: CoreType) -> (r: Shape)
    ensures
        shape_of(r, Val::Type(TypeV::Core(t))),
{
    Shape::Scalar(Value::Opaque(Arc::new(Opaque::Type(TypeValue::Core(t)))))
}

fn shape(n: &Node) -> (r: Shape)
    ensures
        shape_of(r, n@),
{
    match n {
        Node::Leaf(w) => leaf_shape(w),
        Node::Int(i) => Shape::Scalar(Value::Int(*i)),
        Node::Public(v) => public_shape(v),
        Node::Nothing => Shape::Other,
    }
}

fn node_of(r: &CelRef) -> (n: Node)
    ensures
        n@ == ref_view(*r),
{
    match r {
        Some(w) => Node::Leaf(w.clone()),
        None => Node::Nothing,
    }
}

/// The elements of a shape that is a list.
spec fn shape_items(s: Shape) -> Seq<Val> {
    match s {
        Shape::Refs(w) => root_view(*w)->List_0,
        Shape::Ints(w) => root_view(*w)->List_0,
        Shape::List(l) => l@,
        _ => Seq::empty(),
    }
}

/// The entries of a shape that is a map.
spec fn shape_entries(s: Shape) -> Seq<(Val, Val)> {
    match s {
        Shape::Pairs(w) => root_view(*w)->CelMap_0,
        Shape::CelMap(m) => m@,
        _ => Seq::empty(),
    }
}

spec fn is_list_shape(s: Shape) -> bool {
    match s {
        Shape::Refs(w) => *w matches W_Root::List(l) && l.strategy_of() == ListStrategy::Object,
        Shape::Ints(w) => *w matches W_Root::List(l) && l.strategy_of() == ListStrategy::Ints,
        Shape::List(_) => true,
        _ => false,
    }
}

spec fn is_map_shape(s: Shape) -> bool {
    match s {
        Shape::Pairs(w) => *w matches W_Root::CelMap(m) && m.strategy_of() == MapStrategy::Object,
        Shape::CelMap(_) => true,
        _ => false,
    }
}

fn shape_len(s: &Shape) -> (r: usize)
    requires
        is_list_shape(*s),
    ensures
        r == shape_items(*s).len(),
{
    match s {
        Shape::Refs(w) | Shape::Ints(w) => match &**w {
            W_Root::List(l) => {
                assert(root_view(**w) == Val::List(list_leaf_view(*l)));
                list_len(l)
            },
            _ => 0,
        },
        Shape::List(l) => l.len(),
        _ => 0,
    }
}

fn shape_item(s: &Shape, i: usize) -> (r: Node)
    requires
        is_list_shape(*s),
        i < shape_items(*s).len(),
    ensures
        r@ == shape_items(*s)[i as int],
{
    match s {
        Shape::Refs(w) | Shape::Ints(w) => match &**w {
            W_Root::List(l) => {
                assert(root_view(**w) == Val::List(list_leaf_view(*l)));
                proof {
                    use_type_invariant(l);
                }
                match l.strategy {
                    ListStrategy::Object => node_of(&l.items.slots[i]),
                    _ => {
                        if let Some(c) = &l.storage {
                            if let W_Root::IntColumn(col) = &**c {
                                return Node::Int(col.data[l.start + i]);
                            }
                        }
                        Node::Nothing
                    },
                }
            },
            _ => Node::Nothing,
        },
        Shape::List(l) => match l.get(i) {
            Some(v) => Node::Public(v),
            None => Node::Nothing,
        },
        _ => Node::Nothing,
    }
}

fn shape_map_len(s: &Shape) -> (r: usize)
    requires
        is_map_shape(*s),
    ensures
        r == shape_entries(*s).len(),
{
    match s {
        Shape::Pairs(w) => match &**w {
            W_Root::CelMap(m) => {
                assert(root_view(**w) == Val::CelMap(map_leaf_view(*m)));
                map_len(m)
            },
            _ => 0,
        },
        Shape::CelMap(m) => m.len(),
        _ => 0,
    }
}

fn shape_entry(s: &Shape, i: usize) -> (r: (Node, Node))
    requires
        is_map_shape(*s),
        i < shape_entries(*s).len(),
    ensures
        (r.0@, r.1@) == shape_entries(*s)[i as int],
{
    match s {
        Shape::Pairs(w) => match &**w {
            W_Root::CelMap(m) => {
                assert(root_view(**w) == Val::CelMap(map_leaf_view(*m)));
                proof {
                    use_type_invariant(m);
                }
                let n: usize = m.items.slots.len();
                assert(2 * i + 1 < n);
                (node_of(&m.items.slots[2 * i]), node_of(&m.items.slots[2 * i + 1]))
            },
            _ => (Node::Nothing, Node::Nothing),
        },
        Shape::CelMap(m) => match m.entry(i) {
            Some((k, v)) => (Node::Public(key_value(&k)), Node::Public(v)),
            None => (Node::Nothing, Node::Nothing),
        },
        _ => (Node::Nothing, Node::Nothing),
    }
}

/// Whether two values without parts are equal as the runtime compares leaves.
fn scalar_eq(a: &Value, b: &Value) -> (r: bool)
    requires
        is_scalar(a@),
        is_scalar(b@),
        !(a is Interned),
        !(b is Interned),
    ensures
        r == leaf_eq(a@, b@),
{
    match (a, b) {
        (Value::Timestamp(x), Value::Timestamp(y)) => x.same_nanoseconds(*y),
        _ => same_value(a, b),
    }
}

/// Whether two nodes are equal as the runtime compares leaves.
fn node_eq(a: &Node, b: &Node) -> (r: bool)
    ensures
        r == leaf_eq(a@, b@),
    decreases a@, 1nat,
{
    let x = shape(a);
    let y = shape(b);
    match (&x, &y) {
        (Shape::Scalar(v), Shape::Scalar(w)) => scalar_eq(v, w),
        (
            Shape::Refs(_) | Shape::Ints(_) | Shape::List(_),
            Shape::Refs(_) | Shape::Ints(_) | Shape::List(_),
        ) => {
            assert(a@ == Val::List(shape_items(x)) && b@ == Val::List(shape_items(y)));
            lists_eq(&x, &y)
        },
        (Shape::Pairs(_) | Shape::CelMap(_), Shape::Pairs(_) | Shape::CelMap(_)) => {
            assert(a@ == Val::CelMap(shape_entries(x)) && b@ == Val::CelMap(shape_entries(y)));
            maps_eq(&x, &y)
        },
        (Shape::Empty, Shape::Empty) => true,
        (Shape::Present(p), Shape::Present(q)) => {
            let ghost boxed = a@->Optional_0;
            assert(decreases_to!(a@ => boxed));
            assert(decreases_to!(a@ => *boxed->0));
            node_eq(p, q)
        },
        (Shape::Class(c), Shape::Class(d)) => *c == *d,
        _ => false,
    }
}

fn lists_eq(x: &Shape, y: &Shape) -> (r: bool)
    requires
        is_list_shape(*x),
        is_list_shape(*y),
    ensures
        r == leaf_eq(Val::List(shape_items(*x)), Val::List(shape_items(*y))),
    decreases Val::List(shape_items(*x)), 0nat,
{
    let n: usize = shape_len(x);
    if n != shape_len(y) {
        return false;
    }
    let ghost s = shape_items(*x);
    let ghost t = shape_items(*y);
    let mut i: usize = 0;
    while i < n
        invariant
            i <= n,
            is_list_shape(*x),
            is_list_shape(*y),
            s == shape_items(*x),
            t == shape_items(*y),
            n == s.len(),
            n == t.len(),
            forall|j: int| 0 <= j < i ==> leaf_eq(#[trigger] s[j], t[j]),
        decreases n - i,
    {
        let p = shape_item(x, i);
        let q = shape_item(y, i);
        let ghost whole = Val::List(s);
        assert(decreases_to!(whole => whole->List_0));
        assert(decreases_to!(whole->List_0 => whole->List_0[i as int]));
        if !node_eq(&p, &q) {
            assert(!leaf_eq(s[i as int], t[i as int]));
            return false;
        }
        i = i + 1;
    }
    true
}

fn maps_eq(x: &Shape, y: &Shape) -> (r: bool)
    requires
        is_map_shape(*x),
        is_map_shape(*y),
    ensures
        r == leaf_eq(Val::CelMap(shape_entries(*x)), Val::CelMap(shape_entries(*y))),
    decreases Val::CelMap(shape_entries(*x)), 0nat,
{
    let n: usize = shape_map_len(x);
    if n != shape_map_len(y) {
        return false;
    }
    let ghost s = shape_entries(*x);
    let ghost t = shape_entries(*y);
    let mut i: usize = 0;
    while i < n
        invariant
            i <= n,
            is_map_shape(*x),
            is_map_shape(*y),
            s == shape_entries(*x),
            t == shape_entries(*y),
            n == s.len(),
            n == t.len(),
            forall|k: int| 0 <= k < i ==> leaf_found(#[trigger] s[k], t),
        decreases n - i,
    {
        let (lk, lv) = shape_entry(x, i);
        let ghost whole = Val::CelMap(s);
        assert(decreases_to!(whole => whole->CelMap_0));
        assert(decreases_to!(whole->CelMap_0 => whole->CelMap_0[i as int]));
        assert(decreases_to!(whole => whole->CelMap_0[i as int].0));
        assert(decreases_to!(whole => whole->CelMap_0[i as int].1));
        let mut found = false;
        let mut j: usize = 0;
        while j < n && !found
            invariant
                j <= n,
                i < n,
                is_map_shape(*y),
                whole == Val::CelMap(shape_entries(*x)),
                decreases_to!(whole => lk@),
                decreases_to!(whole => lv@),
                s == shape_entries(*x),
                t == shape_entries(*y),
                n == s.len(),
                n == t.len(),
                (lk@, lv@) == s[i as int],
                !found ==> forall|k: int|
                    0 <= k < j ==> !(leaf_eq(s[i as int].0, (#[trigger] t[k]).0) && leaf_eq(
                        s[i as int].1,
                        t[k].1,
                    )),
                found ==> leaf_found(s[i as int], t),
            decreases n - j,
        {
            let (rk, rv) = shape_entry(y, j);
            if node_eq(&lk, &rk) && node_eq(&lv, &rv) {
                assert(leaf_eq(s[i as int].0, t[j as int].0));
                found = true;
            }
            j = j + 1;
        }
        if !found {
            assert(!leaf_found(s[i as int], t));
            return false;
        }
        i = i + 1;
    }
    true
}

/// Whether two leaves are equal.
pub fn values_equal(a: &Arc<W_Root>, b: &Arc<W_Root>) -> (r: bool)
    ensures
        r == leaf_eq(root_view(**a), root_view(**b)),
{
    node_eq(&Node::Leaf(a.clone()), &Node::Leaf(b.clone()))
}

/// Whether a leaf equals a public value.
pub(crate) fn leaf_equals_value(a: &Arc<W_Root>, b: &Value) -> (r: bool)
    ensures
        r == leaf_eq(root_view(**a), b@),
{
    node_eq(&Node::Leaf(a.clone()), &Node::Public(b.clone()))
}

/// `string == string`.
pub fn w_string_eq(a: &W_StringObject, b: &W_StringObject) -> (r: bool)
    ensures
        r == (a.chars@ == b.chars@),
{
    str_eq(a.chars.as_str(), b.chars.as_str())
}

/// `bytes == bytes`.
pub fn w_bytes_eq(a: &W_BytesObject, b: &W_BytesObject) -> (r: bool)
    ensures
        r == (a.payload() == b.payload()),
{
    bytes_eq(bytes_payload(a).as_slice(), bytes_payload(b).as_slice())
}

/// `null == null`.
pub fn w_null_eq(_a: &W_NullObject, _b: &W_NullObject) -> (r: bool)
    ensures
        r,
{
    true
}

/// `list == list`: element by element.
pub fn w_list_eq(a: &Arc<W_Root>, b: &Arc<W_Root>) -> (r: bool)
    requires
        **a is List,
        **b is List,
    ensures
        r == leaf_eq(root_view(**a), root_view(**b)),
{
    values_equal(a, b)
}

/// `map == map`: each entry of the first is found in the second, and they are as many.
pub fn w_map_eq(a: &Arc<W_Root>, b: &Arc<W_Root>) -> (r: bool)
    requires
        **a is CelMap,
        **b is CelMap,
    ensures
        r == leaf_eq(root_view(**a), root_view(**b)),
{
    values_equal(a, b)
}

/// `optional == optional`: both are empty, or both hold equal values.
pub fn w_optional_eq(a: &Arc<W_Root>, b: &Arc<W_Root>) -> (r: bool)
    requires
        **a is Optional,
        **b is Optional,
    ensures
        r == leaf_eq(root_view(**a), root_view(**b)),
{
    values_equal(a, b)
}

/// `opaque == opaque`, by what their hosts are.
pub fn w_opaque_eq(a: &Arc<W_Root>, b: &Arc<W_Root>) -> (r: bool)
    requires
        **a is Opaque,
        **b is Opaque,
    ensures
        r == leaf_eq(root_view(**a), root_view(**b)),
{
    values_equal(a, b)
}

/// `a == b` as a leaf.
pub fn cel_equals(a: &Arc<W_Root>, b: &Arc<W_Root>) -> (r: CelRef)
    ensures
        is_bool_leaf(r, leaf_eq(root_view(**a), root_view(**b))),
{
    new_bool(values_equal(a, b))
}

/// `a != b` as a leaf.
pub fn cel_not_equals(a: &Arc<W_Root>, b: &Arc<W_Root>) -> (r: CelRef)
    ensures
        is_bool_leaf(r, !leaf_eq(root_view(**a), root_view(**b))),
{
    new_bool(!values_equal(a, b))
}

/// Whether an element equals `needle`.
pub open spec fn has_leaf_element(items: Seq<Val>, needle: Val) -> bool {
    exists|i: int| 0 <= i < items.len() && leaf_eq(#[trigger] items[i], needle)
}

/// Whether a list leaf holds an element that equals `target`. What is no list holds
/// none.
fn list_has(w: &Arc<W_Root>, target: &Node) -> (r: bool)
    ensures
        r == (root_view(**w) is List && has_leaf_element(root_view(**w)->List_0, target@)),
{
    let x = leaf_shape(w);
    match &x {
        Shape::Refs(_) | Shape::Ints(_) | Shape::List(_) => {},
        _ => {
            return false;
        },
    }
    let ghost s = shape_items(x);
    assert(root_view(**w) == Val::List(s));
    let n: usize = shape_len(&x);
    let mut i: usize = 0;
    while i < n
        invariant
            i <= n,
            is_list_shape(x),
            s == shape_items(x),
            n == s.len(),
            root_view(**w) == Val::List(s),
            forall|j: int| 0 <= j < i ==> !leaf_eq(#[trigger] s[j], target@),
        decreases n - i,
    {
        let item = shape_item(&x, i);
        if node_eq(&item, target) {
            assert(leaf_eq(s[i as int], target@));
            return true;
        }
        i = i + 1;
    }
    false
}

/// Whether a list leaf holds an element that equals `needle`. What is no list holds
/// none.
pub fn list_contains(w: &Arc<W_Root>, needle: &Arc<W_Root>) -> (r: bool)
    ensures
        r == (root_view(**w) is List && has_leaf_element(
            root_view(**w)->List_0,
            root_view(**needle),
        )),
{
    list_has(w, &Node::Leaf(needle.clone()))
}

/// Whether a list leaf holds an element that equals a public value.
pub(crate) fn list_contains_value(w: &Arc<W_Root>, needle: &Value) -> (r: bool)
    ensures
        r == (root_view(**w) is List && has_leaf_element(root_view(**w)->List_0, needle@)),
{
    list_has(w, &Node::Public(needle.clone()))
}

/// The place of the first key that equals `k`, from `i` on, or -1.
pub open spec fn leaf_position(m: Seq<(Val, Val)>, k: Val, i: int) -> int
    decreases m.len() - i,
{
    if i < 0 || i >= m.len() {
        -1
    } else if leaf_eq(m[i].0, k) {
        i
    } else {
        leaf_position(m, k, i + 1)
    }
}

/// The place of the first key of a map leaf that equals `key`.
fn map_position(x: &Shape, key: &Arc<W_Root>) -> (r: Option<usize>)
    requires
        is_map_shape(*x),
    ensures
        match r {
            Some(i) => i < shape_entries(*x).len() && leaf_position(
                shape_entries(*x),
                root_view(**key),
                0,
            ) == i,
            None => leaf_position(shape_entries(*x), root_view(**key), 0) == -1,
        },
{
    let ghost m = shape_entries(*x);
    let target = Node::Leaf(key.clone());
    let ghost k = target@;
    let n: usize = shape_map_len(x);
    let mut i: usize = 0;
    while i < n
        invariant
            i <= n,
            is_map_shape(*x),
            m == shape_entries(*x),
            n == m.len(),
            k == root_view(**key),
            target@ == k,
            leaf_position(m, k, 0) == leaf_position(m, k, i as int),
        decreases n - i,
    {
        let (key_node, _) = shape_entry(x, i);
        if node_eq(&key_node, &target) {
            return Some(i);
        }
        i = i + 1;
    }
    None
}

/// Whether a node is exactly a key, of the same type.
fn is_exactly(n: &Node, key: KeyRef<'_>) -> (r: bool)
    ensures
        r == (n@ == key@),
{
    match shape(n) {
        Shape::Scalar(x) => match (x.unpack(), key) {
            (Value::Int(a), KeyRef::Int(b)) => a == b,
            (Value::UInt(a), KeyRef::Uint(b)) => a == b,
            (Value::Bool(a), KeyRef::Bool(b)) => a == b,
            (Value::String(a), KeyRef::String(b)) => str_eq(a.as_str(), b),
            _ => false,
        },
        _ => false,
    }
}

/// Whether a map leaf has exactly this key. What is no map has none.
pub(crate) fn map_has_key(w: &Arc<W_Root>, key: KeyRef<'_>) -> (r: bool)
    ensures
        r == (root_view(**w) is CelMap && lookup(root_view(**w)->CelMap_0, key@) is Some),
{
    exact_position(w, key).is_some()
}

/// The place of exactly this key in a map leaf. What is no map has none.
pub(crate) fn exact_position(w: &Arc<W_Root>, key: KeyRef<'_>) -> (r: Option<usize>)
    ensures
        match r {
            Some(i) => root_view(**w) is CelMap && position(root_view(**w)->CelMap_0, key@) == i
                && i < root_view(**w)->CelMap_0.len(),
            None => root_view(**w) is CelMap ==> position(root_view(**w)->CelMap_0, key@) == -1,
        },
{
    let x = leaf_shape(w);
    match &x {
        Shape::Pairs(_) | Shape::CelMap(_) => {},
        _ => {
            return None;
        },
    }
    let ghost m = shape_entries(x);
    assert(root_view(**w) == Val::CelMap(m));
    let n: usize = shape_map_len(&x);
    let mut i: usize = 0;
    while i < n
        invariant
            i <= n,
            is_map_shape(x),
            m == shape_entries(x),
            n == m.len(),
            root_view(**w) == Val::CelMap(m),
            position(m, key@) == position_from(m, key@, i as int),
        decreases n - i,
    {
        let (node, _) = shape_entry(&x, i);
        if is_exactly(&node, key) {
            return Some(i);
        }
        i = i + 1;
    }
    None
}

/// `key in map`: whether a map leaf has exactly this key. What is no map has none, and
/// what is no key is in none.
pub fn map_contains_key(w: &Arc<W_Root>, key: &Arc<W_Root>) -> (r: bool)
    ensures
        r == (root_view(**w) is CelMap && is_key(root_view(**key)) && lookup(
            root_view(**w)->CelMap_0,
            root_view(**key),
        ) is Some),
{
    match &**key {
        W_Root::Int(o) => map_has_key(w, KeyRef::Int(o.intval)),
        W_Root::UInt(o) => map_has_key(w, KeyRef::Uint(o.uintval)),
        W_Root::Bool(o) => map_has_key(w, KeyRef::Bool(o.boolval != 0)),
        W_Root::Str(o) => map_has_key(w, KeyRef::String(o.chars.as_str())),
        _ => false,
    }
}

/// Whether a leaf is a map that holds references.
pub open(crate) spec fn is_object_map(w: W_Root) -> bool {
    w matches W_Root::CelMap(m) && m.strategy_of() == MapStrategy::Object
}

/// The value under the first key of a map leaf that equals `key`. A value of a record
/// row that has no leaf is null.
pub fn map_lookup(heap: &mut CelHeap, w: &Arc<W_Root>, key: &Arc<W_Root>) -> (r: Option<CelRef>)
    requires
        old(heap).wf(),
    ensures
        final(heap).grown_from(old(heap)),
        r is Some == (root_view(**w) is CelMap && leaf_position(
            root_view(**w)->CelMap_0,
            root_view(**key),
            0,
        ) >= 0),
        is_object_map(**w) ==> *final(heap) == *old(heap) && (r matches Some(found) ==> found
            == (**w)->CelMap_0.slots_of()[2 * leaf_position(
            root_view(**w)->CelMap_0,
            root_view(**key),
            0,
        ) + 1]),
        match r {
            Some(found) => {
                let v = root_view(**w)->CelMap_0[leaf_position(
                    root_view(**w)->CelMap_0,
                    root_view(**key),
                    0,
                )].1;
                ||| ref_view(found) == v
                ||| exists|e: Value|
                    #[trigger] e@ == v && ref_view(found)
                        == interned_or_null(e, old(heap).copied_from())
            },
            None => true,
        },
{
    let x = leaf_shape(w);
    match &x {
        Shape::Pairs(_) | Shape::CelMap(_) => {},
        _ => {
            return None;
        },
    }
    assert(root_view(**w) == Val::CelMap(shape_entries(x)));
    let i: usize = match map_position(&x, key) {
        None => {
            return None;
        },
        Some(i) => i,
    };
    if let W_Root::CelMap(m) = &**w {
        if let MapStrategy::Object = m.strategy {
            proof {
                use_type_invariant(m);
            }
            let len: usize = m.items.slots.len();
            assert(2 * i + 1 < len);
            assert(map_leaf_view(*m)[i as int].1 == ref_view(m.items.slots@[2 * i + 1]));
            return Some(clone_ref(&m.items.slots[2 * i + 1]));
        }
    }
    match shape_entry(&x, i).1 {
            Node::Leaf(v) => Some(Some(v)),
            Node::Int(v) => Some(new_int(heap, v)),
            Node::Public(v) => match intern_leaf(heap, &v) {
                Some(found) => {
                    assert(v@ == shape_entries(x)[i as int].1);
                    Some(found)
                },
                None => {
                    assert(v@ == shape_entries(x)[i as int].1);
                    Some(new_null())
                },
            },
            Node::Nothing => Some(None),
        }
}

/// The keys of a map leaf, in order. What is no map has none.
pub fn map_key_refs(heap: &mut CelHeap, w: &Arc<W_Root>) -> (r: Vec<CelRef>)
    requires
        old(heap).wf(),
    ensures
        final(heap).grown_from(old(heap)),
        root_view(**w) is CelMap ==> refs_view(r@) == Seq::new(
            root_view(**w)->CelMap_0.len(),
            |i: int| root_view(**w)->CelMap_0[i].0,
        ),
        !(root_view(**w) is CelMap) ==> r@.len() == 0,
        is_object_map(**w) ==> *final(heap) == *old(heap) && forall|i: int|
            0 <= i < r@.len() ==> #[trigger] r@[i] == (**w)->CelMap_0.slots_of()[2 * i],
{
    let mut out: Vec<CelRef> = Vec::new();
    match &**w {
        W_Root::CelMap(m) => {
            assert(root_view(**w) == Val::CelMap(map_leaf_view(*m)));
            proof {
                use_type_invariant(m);
            }
            let ghost entries = map_leaf_view(*m);
            match m.strategy {
                MapStrategy::Object => {
                    let n: usize = m.length;
                    let len: usize = m.items.slots.len();
                    let mut i: usize = 0;
                    while i < n
                        invariant
                            heap.grown_from(old(heap)),
                            i <= n,
                            n == m.length,
                            2 * n <= m.items.slots@.len(),
                            len == m.items.slots@.len(),
                            m.strategy == MapStrategy::Object,
                            entries == map_leaf_view(*m),
                            out@.len() == i,
                            *heap == *old(heap),
                            forall|j: int|
                                0 <= j < i ==> ref_view(#[trigger] out@[j]) == entries[j].0
                                    && out@[j] == m.items.slots@[2 * j],
                        decreases n - i,
                    {
                        assert(entries[i as int].0 == ref_view(m.items.slots@[2 * i]));
                        out.push(clone_ref(&m.items.slots[2 * i]));
                        i = i + 1;
                    }
                },
                MapStrategy::Record => {
                    let row = hosted_row(m);
                    let n: usize = row.len();
                    let mut i: usize = 0;
                    while i < n
                        invariant
                            heap.grown_from(old(heap)),
                            i <= n,
                            n == row@.len(),
                            entries == row@,
                            out@.len() == i,
                            forall|j: int| 0 <= j < i ==> ref_view(#[trigger] out@[j]) == entries[j].0,
                        decreases n - i,
                    {
                        if let Some((k, _)) = row.entry(i) {
                            out.push(key_to_ref(heap, &k));
                        }
                        i = i + 1;
                    }
                },
            }
            assert(refs_view(out@) =~= Seq::new(entries.len(), |i: int| entries[i].0));
            out
        },
        _ => out,
    }
}

// ---------------------------------------------------------------------------
// Order.

/// `a` comes before `b`.
pub const CMP_LESS: i64 = -1;

/// `a` and `b` stand at one place.
pub const CMP_EQUAL: i64 = 0;

/// `a` comes after `b`.
pub const CMP_GREATER: i64 = 1;

/// `a` and `b` have no order.
pub const CMP_INCOMPARABLE: i64 = 2;

/// The code of an order.
pub open spec fn order_code(o: Option<Order>) -> i64 {
    match o {
        Some(Order::Less) => CMP_LESS,
        Some(Order::Equal) => CMP_EQUAL,
        Some(Order::Greater) => CMP_GREATER,
        None => CMP_INCOMPARABLE,
    }
}

/// The order of two leaves, if the ordering operators take the first.
pub open spec fn leaf_order(a: Val, b: Val) -> Option<Order> {
    if has_order(a) {
        val_order(a, b)
    } else {
        None
    }
}

/// How two leaves are ordered, as a code.
pub fn cel_compare(a: &Arc<W_Root>, b: &Arc<W_Root>) -> (r: i64)
    ensures
        r == order_code(leaf_order(root_view(**a), root_view(**b))),
{
    match (&**a, &**b) {
        (W_Root::Str(x), W_Root::Str(y)) => return w_string_cmp(x, y),
        (W_Root::Bytes(x), W_Root::Bytes(y)) => return w_bytes_cmp(x, y),
        _ => {},
    }
    match (leaf_shape(a), leaf_shape(b)) {
        (Shape::Scalar(x), Shape::Scalar(y)) => {
            if !has_comparer(&x) {
                return CMP_INCOMPARABLE;
            }
            match value_order(&x, &y) {
                Some(o) => code_of(o),
                None => CMP_INCOMPARABLE,
            }
        },
        _ => CMP_INCOMPARABLE,
    }
}

/// The code of a known order.
fn code_of(o: Order) -> (r: i64)
    ensures
        r == order_code(Some(o)),
{
    match o {
        Order::Less => CMP_LESS,
        Order::Equal => CMP_EQUAL,
        Order::Greater => CMP_GREATER,
    }
}

/// Two `string` leaves, by their bytes.
pub fn w_string_cmp(a: &W_StringObject, b: &W_StringObject) -> (r: i64)
    ensures
        r == order_code(val_order(Val::Str(a.chars@), Val::Str(b.chars@))),
{
    code_of(compare_strs(a.chars.as_str(), b.chars.as_str()))
}

/// Two `bytes` leaves.
pub fn w_bytes_cmp(a: &W_BytesObject, b: &W_BytesObject) -> (r: i64)
    ensures
        r == order_code(val_order(Val::Bytes(a.payload()), Val::Bytes(b.payload()))),
{
    code_of(compare_bytes(bytes_payload(a).as_slice(), bytes_payload(b).as_slice()))
}

/// The code with the operands exchanged.
pub fn reverse_code(code: i64) -> (r: i64)
    ensures
        r == if code == CMP_LESS {
            CMP_GREATER
        } else if code == CMP_GREATER {
            CMP_LESS
        } else {
            code
        },
{
    if code == CMP_LESS {
        CMP_GREATER
    } else if code == CMP_GREATER {
        CMP_LESS
    } else {
        code
    }
}

/// The name of an ordering operator in errors.
pub open spec fn order_name(op: CmpOp) -> Seq<char> {
    match op {
        CmpOp::Less => "less"@,
        CmpOp::LessEquals => "less_equals"@,
        CmpOp::Greater => "greater"@,
        CmpOp::GreaterEquals => "greater_equals"@,
    }
}

/// Whether an error is in flight that says this.
pub open spec fn raised(
    slot: ErrorSlot,
    code: CelErrCode,
    op: Seq<char>,
    lhs: CelRef,
    rhs: CelRef,
) -> bool {
    slot.raised matches Some(e) && e.code == code && e.op@ == op && e.lhs == lhs && e.rhs == rhs
}

/// An ordering operator on two leaves. Leaves without an order raise.
fn order_op(
    slot: &mut ErrorSlot,
    op: CmpOp,
    name: &'static str,
    a: &Arc<W_Root>,
    b: &Arc<W_Root>,
) -> (r: CelRef)
    requires
        name@ == order_name(op),
    ensures
        ordered(op, **a, **b, *old(slot), *final(slot), r),
{
    let code: i64 = cel_compare(a, b);
    if code == CMP_INCOMPARABLE {
        return raise(slot, CelErrCode::NoSuchOverload, name, Some(a.clone()), Some(b.clone()));
    }
    let accepted = match op {
        CmpOp::Less => code == CMP_LESS,
        CmpOp::LessEquals => code != CMP_GREATER,
        CmpOp::Greater => code == CMP_GREATER,
        CmpOp::GreaterEquals => code != CMP_LESS,
    };
    new_bool(accepted)
}

/// What an ordering operator on two leaves does.
pub open(crate) spec fn ordered(
    op: CmpOp,
    a: W_Root,
    b: W_Root,
    before: ErrorSlot,
    after: ErrorSlot,
    r: CelRef,
) -> bool {
    match leaf_order(root_view(a), root_view(b)) {
        Some(o) => is_bool_leaf(r, accepts(op, o)) && after == before,
        None => r is None && raised(
            after,
            CelErrCode::NoSuchOverload,
            order_name(op),
            Some(Arc::new(a)),
            Some(Arc::new(b)),
        ),
    }
}

/// `a < b`.
pub fn cel_less(slot: &mut ErrorSlot, a: &Arc<W_Root>, b: &Arc<W_Root>) -> (r: CelRef)
    ensures
        ordered(CmpOp::Less, **a, **b, *old(slot), *final(slot), r),
{
    order_op(slot, CmpOp::Less, "less", a, b)
}

/// `a <= b`.
pub fn cel_less_equals(slot: &mut ErrorSlot, a: &Arc<W_Root>, b: &Arc<W_Root>) -> (r: CelRef)
    ensures
        ordered(CmpOp::LessEquals, **a, **b, *old(slot), *final(slot), r),
{
    order_op(slot, CmpOp::LessEquals, "less_equals", a, b)
}

/// `a > b`.
pub fn cel_greater(slot: &mut ErrorSlot, a: &Arc<W_Root>, b: &Arc<W_Root>) -> (r: CelRef)
    ensures
        ordered(CmpOp::Greater, **a, **b, *old(slot), *final(slot), r),
{
    order_op(slot, CmpOp::Greater, "greater", a, b)
}

/// `a >= b`.
pub fn cel_greater_equals(slot: &mut ErrorSlot, a: &Arc<W_Root>, b: &Arc<W_Root>) -> (r: CelRef)
    ensures
        ordered(CmpOp::GreaterEquals, **a, **b, *old(slot), *final(slot), r),
{
    order_op(slot, CmpOp::GreaterEquals, "greater_equals", a, b)
}

// ---------------------------------------------------------------------------
// Arithmetic.

/// What an arithmetic operator on leaves comes to.
pub enum LeafOutV {
    Value(Val),
    /// It raises; `true` if the operands are reported exchanged.
    Raise(CelErrCode, bool),
    Double(BinOp, u64, u64),
}

/// A result of integer arithmetic.
pub open spec fn leaf_result(r: Result<Val, ErrV>) -> LeafOutV {
    match r {
        Ok(v) => LeafOutV::Value(v),
        Err(ErrV::DivisionByZero(_)) => LeafOutV::Raise(CelErrCode::DivisionByZero, false),
        Err(ErrV::RemainderByZero(_)) => LeafOutV::Raise(CelErrCode::RemainderByZero, false),
        Err(_) => LeafOutV::Raise(CelErrCode::Overflow, false),
    }
}

/// A count of nanoseconds in 64 bits, or an overflow.
pub open spec fn leaf_nanos(n: int, v: Val, swapped: bool) -> LeafOutV {
    if i64::MIN <= n <= i64::MAX {
        LeafOutV::Value(v)
    } else {
        LeafOutV::Raise(CelErrCode::Overflow, swapped)
    }
}

/// An arithmetic operator on two leaves. Durations and timestamps are 64-bit counts
/// of nanoseconds here, and overflow where those do.
pub open spec fn leaf_arith(op: BinOp, a: Val, b: Val) -> LeafOutV {
    let none = LeafOutV::Raise(CelErrCode::UnsupportedBinaryOperator, false);
    match (a, b) {
        (Val::Int(x), Val::Int(y)) => leaf_result(int_arith(op, x, y)),
        (Val::UInt(x), Val::UInt(y)) => leaf_result(uint_arith(op, x, y)),
        (Val::Double(x), Val::Double(y)) => if op == BinOp::Rem {
            none
        } else {
            LeafOutV::Double(op, x, y)
        },
        (Val::Duration(x), Val::Duration(y)) => match op {
            BinOp::Add => leaf_nanos(x + y, Val::Duration(x + y), false),
            BinOp::Sub => leaf_nanos(x - y, Val::Duration(x - y), false),
            _ => none,
        },
        (Val::Timestamp(t), Val::Duration(d)) => match op {
            BinOp::Add => leaf_nanos(
                t.nanos + d,
                Val::Timestamp(Instant { nanos: t.nanos + d, leap: false, offset: t.offset }),
                false,
            ),
            BinOp::Sub => leaf_nanos(
                t.nanos - d,
                Val::Timestamp(Instant { nanos: t.nanos - d, leap: false, offset: t.offset }),
                false,
            ),
            _ => none,
        },
        (Val::Duration(d), Val::Timestamp(t)) => match op {
            BinOp::Add => leaf_nanos(
                t.nanos + d,
                Val::Timestamp(Instant { nanos: t.nanos + d, leap: false, offset: t.offset }),
                true,
            ),
            _ => none,
        },
        (Val::Timestamp(t), Val::Timestamp(u)) => match op {
            BinOp::Sub => leaf_nanos(t.nanos - u.nanos, Val::Duration(t.nanos - u.nanos), false),
            _ => none,
        },
        (Val::Str(x), Val::Str(y)) => if op == BinOp::Add {
            LeafOutV::Value(Val::Str(x + y))
        } else {
            none
        },
        (Val::Bytes(x), Val::Bytes(y)) => if op == BinOp::Add {
            LeafOutV::Value(Val::Bytes(x + y))
        } else {
            none
        },
        (Val::List(x), Val::List(y)) => if op == BinOp::Add {
            LeafOutV::Value(Val::List(x + y))
        } else {
            none
        },
        _ => none,
    }
}

/// What an arithmetic operator on leaves gives.
#[derive(Debug)]
pub enum LeafOut {
    /// A leaf; or nothing, and an error is raised.
    Ref(CelRef),
    /// The operation on two doubles, given by their bits.
    Double(BinOp, u64, u64),
}

/// The elements of a list leaf, each as a reference. The elements of a window are
/// boxed, and one that has no leaf is left out.
pub open(crate) spec fn list_items_of(
    l: W_ListObject,
    items: Seq<CelRef>,
    nursery: Option<Space>,
) -> bool {
    match l.strategy {
        ListStrategy::Window => exists|vs: Seq<Value>|
            #[trigger] values_view(vs) == list_leaf_view(l) && refs_view(items)
                == interned_present(vs, nursery),
        _ => refs_view(items) == list_leaf_view(l),
    }
}

/// What the leaves of the values that have one are.
pub open(crate) spec fn interned_present(vs: Seq<Value>, nursery: Option<Space>) -> Seq<Val>
    decreases vs.len(),
{
    if vs.len() == 0 {
        Seq::empty()
    } else {
        match interned_of(vs.last(), nursery) {
            Ok(x) => interned_present(vs.drop_last(), nursery).push(x),
            Err(_) => interned_present(vs.drop_last(), nursery),
        }
    }
}

/// The elements of a list leaf, each as a reference.
fn list_items(heap: &mut CelHeap, l: &W_ListObject) -> (r: Vec<CelRef>)
    requires
        old(heap).wf(),
    ensures
        final(heap).grown_from(old(heap)),
        list_items_of(*l, r@, old(heap).copied_from()),
{
    let mut out: Vec<CelRef> = Vec::new();
    match l.strategy {
        ListStrategy::Window => {
            let list = hosted_window(l);
            let n: usize = list.len();
            let ghost mut vs: Seq<Value> = Seq::empty();
            let mut i: usize = 0;
            assert(refs_view(out@) =~= Seq::<Val>::empty());
            assert(values_view(vs) =~= list@.take(0));
            while i < n
                invariant
                    heap.grown_from(old(heap)),
                    i <= n,
                    n == list@.len(),
                    vs.len() == i,
                    values_view(vs) == list@.take(i as int),
                    refs_view(out@) == interned_present(vs, old(heap).copied_from()),
                decreases n - i,
            {
                if let Some(v) = list.get(i) {
                    let ghost prev = vs;
                    let ghost items = refs_view(out@);
                    proof {
                        vs = vs.push(v);
                        assert(vs.drop_last() =~= prev);
                        assert(vs.last() == v);
                        assert(values_view(vs) =~= list@.take(i + 1));
                    }
                    if let Some(x) = intern_leaf(heap, &v) {
                        out.push(x);
                        assert(refs_view(out@) =~= items.push(ref_view(x)));
                    }
                }
                i = i + 1;
            }
            assert(list@.take(n as int) =~= list@);
            assert(values_view(vs) == list_leaf_view(*l));
            out
        },
        _ => {
            let n: usize = list_len(l);
            let mut i: usize = 0;
            while i < n
                invariant
                    heap.grown_from(old(heap)),
                    i <= n,
                    n == l.len_of(),
                    n == list_leaf_view(*l).len(),
                    l.strategy_of() != ListStrategy::Window,
                    out@.len() == i,
                    forall|j: int|
                        0 <= j < i ==> ref_view(#[trigger] out@[j]) == list_leaf_view(*l)[j],
                decreases n - i,
            {
                out.push(list_item(heap, l, i));
                i = i + 1;
            }
            assert(refs_view(out@) =~= list_leaf_view(*l));
            out
        },
    }
}

/// Element `i` of a list leaf that is no window.
fn list_item(heap: &mut CelHeap, l: &W_ListObject, i: usize) -> (r: CelRef)
    requires
        old(heap).wf(),
        i < l.len_of(),
        l.strategy_of() != ListStrategy::Window,
    ensures
        final(heap).grown_from(old(heap)),
        ref_view(r) == list_leaf_view(*l)[i as int],
{
    proof {
        use_type_invariant(l);
    }
    match l.strategy {
        ListStrategy::Object => clone_ref(&l.items.slots[i]),
        _ => {
            if let Some(w) = &l.storage {
                if let W_Root::IntColumn(c) = &**w {
                    return new_int(heap, c.data[l.start + i]);
                }
            }
            None
        },
    }
}

/// Whether a leaf is a window over a hosted list.
pub open(crate) spec fn is_window(w: W_Root) -> bool {
    w matches W_Root::List(l) && l.strategy == ListStrategy::Window
}

/// What an arithmetic operator on two leaves does to the heap and to the error slot, and
/// gives.
pub open(crate) spec fn computed(
    op: BinOp,
    a: W_Root,
    b: W_Root,
    heap: &CelHeap,
    grown: &CelHeap,
    before: ErrorSlot,
    after: ErrorSlot,
    r: LeafOut,
) -> bool {
    match leaf_arith(op, root_view(a), root_view(b)) {
        LeafOutV::Double(o, x, y) => r == LeafOut::Double(o, x, y) && after == before && *grown
            == *heap,
        LeafOutV::Raise(code, swapped) => r == LeafOut::Ref(None) && *grown == *heap && if swapped {
            raised(after, code, op_name(op), Some(Arc::new(b)), Some(Arc::new(a)))
        } else {
            raised(after, code, op_name(op), Some(Arc::new(a)), Some(Arc::new(b)))
        },
        LeafOutV::Value(v) => {
            &&& after == before
            &&& r matches LeafOut::Ref(Some(w)) && made(heap, grown, *w) && if is_window(a)
                || is_window(b) {
                exists|x: Seq<CelRef>, y: Seq<CelRef>|
                    #[trigger] list_items_of(a->List_0, x, heap.copied_from())
                        && #[trigger] list_items_of(b->List_0, y, heap.copied_from()) && root_view(
                        *w,
                    ) == Val::List(refs_view(x) + refs_view(y))
            } else {
                root_view(*w) == v
            }
        },
    }
}

fn raise_op(
    slot: &mut ErrorSlot,
    code: CelErrCode,
    op: BinOp,
    a: &Arc<W_Root>,
    b: &Arc<W_Root>,
) -> (r: CelRef)
    ensures
        r is None,
        raised(*final(slot), code, op_name(op), Some(*a), Some(*b)),
{
    raise(slot, code, op.name(), Some(a.clone()), Some(b.clone()))
}

/// Integer arithmetic on two leaves, from its result as a value.
fn int_out(
    heap: &mut CelHeap,
    slot: &mut ErrorSlot,
    op: BinOp,
    a: &Arc<W_Root>,
    b: &Arc<W_Root>,
    result: Result<Value, ExecutionError>,
) -> (r: CelRef)
    requires
        old(heap).wf(),
        !is_window(**a),
        !is_window(**b),
        leaf_arith(op, root_view(**a), root_view(**b)) == leaf_result(
            result_view(result),
        ),
        match result {
            Ok(v) => v@ is Int || v@ is UInt,
            Err(e) => true,
        },
    ensures
        final(heap).grown_from(old(heap)),
        computed(op, **a, **b, old(heap), final(heap), *old(slot), *final(slot), LeafOut::Ref(r)),
{
    match result {
        Ok(v) => match v.into_public() {
            Value::Int(v) => new_int(heap, v),
            Value::UInt(v) => new_uint(heap, v),
            _ => None,
        },
        Err(ExecutionError::DivisionByZero(_)) => raise_op(
            slot,
            CelErrCode::DivisionByZero,
            op,
            a,
            b,
        ),
        Err(ExecutionError::RemainderByZero(_)) => raise_op(
            slot,
            CelErrCode::RemainderByZero,
            op,
            a,
            b,
        ),
        Err(_) => raise_op(slot, CelErrCode::Overflow, op, a, b),
    }
}

/// A timestamp leaf moved by a duration leaf.
fn shifted(op: BinOp, nanos: i64, delta: i64) -> (r: Option<i64>)
    requires
        op == BinOp::Add || op == BinOp::Sub,
    ensures
        ({
            let n = if op == BinOp::Add {
                nanos + delta
            } else {
                nanos - delta
            };
            r == if i64::MIN <= n <= i64::MAX {
                Some(n as i64)
            } else {
                None
            }
        }),
{
    match op {
        BinOp::Add => nanos.checked_add(delta),
        _ => nanos.checked_sub(delta),
    }
}

/// An operator on two `int` leaves.
fn int_arm(
    heap: &mut CelHeap,
    slot: &mut ErrorSlot,
    op: BinOp,
    a: &Arc<W_Root>,
    b: &Arc<W_Root>,
) -> (r: CelRef)
    requires
        old(heap).wf(),
        **a is Int,
        **b is Int,
    ensures
        final(heap).grown_from(old(heap)),
        computed(op, **a, **b, old(heap), final(heap), *old(slot), *final(slot), LeafOut::Ref(r)),
{
    match (&**a, &**b) {
        (W_Root::Int(x), W_Root::Int(y)) => {
            let v = int_binop(op, x.intval, y.intval);
            int_out(heap, slot, op, a, b, v)
        },
        _ => None,
    }
}

/// An operator on two `uint` leaves.
fn uint_arm(
    heap: &mut CelHeap,
    slot: &mut ErrorSlot,
    op: BinOp,
    a: &Arc<W_Root>,
    b: &Arc<W_Root>,
) -> (r: CelRef)
    requires
        old(heap).wf(),
        **a is UInt,
        **b is UInt,
    ensures
        final(heap).grown_from(old(heap)),
        computed(op, **a, **b, old(heap), final(heap), *old(slot), *final(slot), LeafOut::Ref(r)),
{
    match (&**a, &**b) {
        (W_Root::UInt(x), W_Root::UInt(y)) => {
            let v = uint_binop(op, x.uintval, y.uintval);
            int_out(heap, slot, op, a, b, v)
        },
        _ => None,
    }
}

/// `int / int`. A zero divisor is told apart from the overflow of `MIN / -1`.
pub fn w_int_div(heap: &mut CelHeap, slot: &mut ErrorSlot, a: &Arc<W_Root>, b: &Arc<W_Root>) -> (r:
    CelRef)
    requires
        old(heap).wf(),
        **a is Int,
        **b is Int,
    ensures
        final(heap).grown_from(old(heap)),
        computed(BinOp::Div, **a, **b, old(heap), final(heap), *old(slot), *final(slot), LeafOut::Ref(r)),
{
    int_arm(heap, slot, BinOp::Div, a, b)
}

/// `uint / uint`. Only a zero divisor fails.
pub fn w_uint_div(heap: &mut CelHeap, slot: &mut ErrorSlot, a: &Arc<W_Root>, b: &Arc<W_Root>) -> (r:
    CelRef)
    requires
        old(heap).wf(),
        **a is UInt,
        **b is UInt,
    ensures
        final(heap).grown_from(old(heap)),
        computed(BinOp::Div, **a, **b, old(heap), final(heap), *old(slot), *final(slot), LeafOut::Ref(r)),
{
    uint_arm(heap, slot, BinOp::Div, a, b)
}

/// `int % int`.
pub fn w_int_rem(heap: &mut CelHeap, slot: &mut ErrorSlot, a: &Arc<W_Root>, b: &Arc<W_Root>) -> (r:
    CelRef)
    requires
        old(heap).wf(),
        **a is Int,
        **b is Int,
    ensures
        final(heap).grown_from(old(heap)),
        computed(BinOp::Rem, **a, **b, old(heap), final(heap), *old(slot), *final(slot), LeafOut::Ref(r)),
{
    int_arm(heap, slot, BinOp::Rem, a, b)
}

/// `uint % uint`.
pub fn w_uint_rem(heap: &mut CelHeap, slot: &mut ErrorSlot, a: &Arc<W_Root>, b: &Arc<W_Root>) -> (r:
    CelRef)
    requires
        old(heap).wf(),
        **a is UInt,
        **b is UInt,
    ensures
        final(heap).grown_from(old(heap)),
        computed(BinOp::Rem, **a, **b, old(heap), final(heap), *old(slot), *final(slot), LeafOut::Ref(r)),
{
    uint_arm(heap, slot, BinOp::Rem, a, b)
}

/// `timestamp - timestamp`, which is a `duration`.
pub fn w_timestamp_diff(heap: &mut CelHeap, slot: &mut ErrorSlot, a: &Arc<W_Root>, b: &Arc<W_Root>) -> (r:
    CelRef)
    requires
        old(heap).wf(),
        **a is Timestamp,
        **b is Timestamp,
    ensures
        final(heap).grown_from(old(heap)),
        computed(BinOp::Sub, **a, **b, old(heap), final(heap), *old(slot), *final(slot), LeafOut::Ref(r)),
{
    match (&**a, &**b) {
        (W_Root::Timestamp(t), W_Root::Timestamp(u)) => match t.nanos.checked_sub(u.nanos) {
            Some(n) => new_duration(heap, n),
            None => raise_op(slot, CelErrCode::Overflow, BinOp::Sub, a, b),
        },
        _ => None,
    }
}

/// `string + string`.
pub fn w_string_add(heap: &mut CelHeap, x: &W_StringObject, y: &W_StringObject) -> (r: CelRef)
    requires
        old(heap).wf(),
    ensures
        final(heap).grown_from(old(heap)),
        ref_view(r) == Val::Str(x.chars@ + y.chars@),
        r matches Some(w) && made(old(heap), final(heap), *w),
{
    let mut s: String = (*x.chars).clone();
    s.append(y.chars.as_str());
    new_string(heap, &Arc::new(s))
}

/// `bytes + bytes`.
pub fn w_bytes_add(heap: &mut CelHeap, x: &W_BytesObject, y: &W_BytesObject) -> (r: CelRef)
    requires
        old(heap).wf(),
    ensures
        final(heap).grown_from(old(heap)),
        ref_view(r) == Val::Bytes(x.payload() + y.payload()),
        r matches Some(w) && made(old(heap), final(heap), *w),
{
    let joined = concat_bytes(bytes_payload(x), bytes_payload(y));
    new_bytes(heap, &Arc::new(joined))
}

/// An arithmetic operator on two leaves.
fn cel_binary(
    heap: &mut CelHeap,
    slot: &mut ErrorSlot,
    op: BinOp,
    a: &Arc<W_Root>,
    b: &Arc<W_Root>,
) -> (r: LeafOut)
    requires
        old(heap).wf(),
    ensures
        final(heap).grown_from(old(heap)),
        computed(op, **a, **b, old(heap), final(heap), *old(slot), *final(slot), r),
{
    match (&**a, &**b) {
        (W_Root::Int(_), W_Root::Int(_)) => LeafOut::Ref(
            match op {
                BinOp::Div => w_int_div(heap, slot, a, b),
                BinOp::Rem => w_int_rem(heap, slot, a, b),
                _ => int_arm(heap, slot, op, a, b),
            },
        ),
        (W_Root::UInt(_), W_Root::UInt(_)) => LeafOut::Ref(
            match op {
                BinOp::Div => w_uint_div(heap, slot, a, b),
                BinOp::Rem => w_uint_rem(heap, slot, a, b),
                _ => uint_arm(heap, slot, op, a, b),
            },
        ),
        (W_Root::Double(x), W_Root::Double(y)) => match op {
            BinOp::Rem => LeafOut::Ref(raise_op(slot, CelErrCode::UnsupportedBinaryOperator, op, a, b)),
            _ => LeafOut::Double(op, x.floatval, y.floatval),
        },
        (W_Root::Duration(x), W_Root::Duration(y)) => match op {
            BinOp::Add | BinOp::Sub => match shifted(op, x.nanos, y.nanos) {
                Some(n) => LeafOut::Ref(new_duration(heap, n)),
                None => LeafOut::Ref(raise_op(slot, CelErrCode::Overflow, op, a, b)),
            },
            _ => LeafOut::Ref(raise_op(slot, CelErrCode::UnsupportedBinaryOperator, op, a, b)),
        },
        (W_Root::Timestamp(t), W_Root::Duration(d)) => match op {
            BinOp::Add | BinOp::Sub => match shifted(op, t.nanos, d.nanos) {
                Some(n) => LeafOut::Ref(new_timestamp(heap, n, t.off_s)),
                None => LeafOut::Ref(raise_op(slot, CelErrCode::Overflow, op, a, b)),
            },
            _ => LeafOut::Ref(raise_op(slot, CelErrCode::UnsupportedBinaryOperator, op, a, b)),
        },
        (W_Root::Duration(d), W_Root::Timestamp(t)) => match op {
            BinOp::Add => match shifted(op, t.nanos, d.nanos) {
                Some(n) => LeafOut::Ref(new_timestamp(heap, n, t.off_s)),
                None => LeafOut::Ref(raise_op(slot, CelErrCode::Overflow, op, b, a)),
            },
            _ => LeafOut::Ref(raise_op(slot, CelErrCode::UnsupportedBinaryOperator, op, a, b)),
        },
        (W_Root::Timestamp(_), W_Root::Timestamp(_)) => match op {
            BinOp::Sub => LeafOut::Ref(w_timestamp_diff(heap, slot, a, b)),
            _ => LeafOut::Ref(raise_op(slot, CelErrCode::UnsupportedBinaryOperator, op, a, b)),
        },
        (W_Root::Str(x), W_Root::Str(y)) => match op {
            BinOp::Add => LeafOut::Ref(w_string_add(heap, x, y)),
            _ => LeafOut::Ref(raise_op(slot, CelErrCode::UnsupportedBinaryOperator, op, a, b)),
        },
        (W_Root::Bytes(x), W_Root::Bytes(y)) => match op {
            BinOp::Add => LeafOut::Ref(w_bytes_add(heap, x, y)),
            _ => LeafOut::Ref(raise_op(slot, CelErrCode::UnsupportedBinaryOperator, op, a, b)),
        },
        (W_Root::List(x), W_Root::List(y)) => match op {
            BinOp::Add => LeafOut::Ref(w_list_add(heap, x, y)),
            _ => LeafOut::Ref(raise_op(slot, CelErrCode::UnsupportedBinaryOperator, op, a, b)),
        },
        _ => LeafOut::Ref(raise_op(slot, CelErrCode::UnsupportedBinaryOperator, op, a, b)),
    }
}

/// The list leaf of the elements of both.
pub fn w_list_add(heap: &mut CelHeap, x: &W_ListObject, y: &W_ListObject) -> (r: CelRef)
    requires
        old(heap).wf(),
    ensures
        final(heap).grown_from(old(heap)),
        r matches Some(w) && made(old(heap), final(heap), *w),
        r matches Some(w) && exists|p: Seq<CelRef>, q: Seq<CelRef>|
            #[trigger] list_items_of(*x, p, old(heap).copied_from()) && #[trigger] list_items_of(
                *y,
                q,
                old(heap).copied_from(),
            ) && root_view(*w)
                == Val::List(refs_view(p) + refs_view(q)),
{
    let left = list_items(heap, x);
    let right = list_items(heap, y);
    let mut out: Vec<CelRef> = Vec::new();
    let ghost both = left@ + right@;
    let mut i: usize = 0;
    while i < left.len()
        invariant
            i <= left@.len(),
            both == left@ + right@,
            out@ == both.take(i as int),
        decreases left@.len() - i,
    {
        out.push(clone_ref(&left[i]));
        assert(out@ =~= both.take(i + 1));
        i = i + 1;
    }
    let mut j: usize = 0;
    while j < right.len()
        invariant
            j <= right@.len(),
            both == left@ + right@,
            out@ == both.take(left@.len() + j),
        decreases right@.len() - j,
    {
        out.push(clone_ref(&right[j]));
        assert(out@ =~= both.take(left@.len() + j + 1));
        j = j + 1;
    }
    assert(out@ =~= both);
    assert(refs_view(both) =~= refs_view(left@) + refs_view(right@));
    new_list(heap, &out)
}

/// `a + b`.
pub fn cel_add(heap: &mut CelHeap, slot: &mut ErrorSlot, a: &Arc<W_Root>, b: &Arc<W_Root>) -> (r:
    LeafOut)
    requires
        old(heap).wf(),
    ensures
        final(heap).grown_from(old(heap)),
        computed(BinOp::Add, **a, **b, old(heap), final(heap), *old(slot), *final(slot), r),
{
    cel_binary(heap, slot, BinOp::Add, a, b)
}

/// `a - b`.
pub fn cel_sub(heap: &mut CelHeap, slot: &mut ErrorSlot, a: &Arc<W_Root>, b: &Arc<W_Root>) -> (r:
    LeafOut)
    requires
        old(heap).wf(),
    ensures
        final(heap).grown_from(old(heap)),
        computed(BinOp::Sub, **a, **b, old(heap), final(heap), *old(slot), *final(slot), r),
{
    cel_binary(heap, slot, BinOp::Sub, a, b)
}

/// `a * b`.
pub fn cel_mul(heap: &mut CelHeap, slot: &mut ErrorSlot, a: &Arc<W_Root>, b: &Arc<W_Root>) -> (r:
    LeafOut)
    requires
        old(heap).wf(),
    ensures
        final(heap).grown_from(old(heap)),
        computed(BinOp::Mul, **a, **b, old(heap), final(heap), *old(slot), *final(slot), r),
{
    cel_binary(heap, slot, BinOp::Mul, a, b)
}

/// `a / b`.
pub fn cel_div(heap: &mut CelHeap, slot: &mut ErrorSlot, a: &Arc<W_Root>, b: &Arc<W_Root>) -> (r:
    LeafOut)
    requires
        old(heap).wf(),
    ensures
        final(heap).grown_from(old(heap)),
        computed(BinOp::Div, **a, **b, old(heap), final(heap), *old(slot), *final(slot), r),
{
    cel_binary(heap, slot, BinOp::Div, a, b)
}

/// `a % b`.
pub fn cel_rem(heap: &mut CelHeap, slot: &mut ErrorSlot, a: &Arc<W_Root>, b: &Arc<W_Root>) -> (r:
    LeafOut)
    requires
        old(heap).wf(),
    ensures
        final(heap).grown_from(old(heap)),
        computed(BinOp::Rem, **a, **b, old(heap), final(heap), *old(slot), *final(slot), r),
{
    cel_binary(heap, slot, BinOp::Rem, a, b)
}

/// Unary minus on a leaf, or the code it raises.
pub open spec fn leaf_negate(v: Val) -> Result<Val, CelErrCode> {
    match v {
        Val::Int(i) => if i == i64::MIN {
            Err(CelErrCode::Overflow)
        } else {
            Ok(Val::Int((-i) as i64))
        },
        Val::Double(d) => Ok(Val::Double(negated(d))),
        Val::Bool(b) => Ok(Val::Bool(!b)),
        Val::Duration(d) => if d == i64::MIN {
            Err(CelErrCode::Overflow)
        } else {
            Ok(Val::Duration(-d))
        },
        _ => Err(CelErrCode::NoSuchOverload),
    }
}

/// `-a`. On a `bool` it is "not".
pub fn cel_negate(heap: &mut CelHeap, slot: &mut ErrorSlot, a: &Arc<W_Root>) -> (r: CelRef)
    requires
        old(heap).wf(),
    ensures
        final(heap).grown_from(old(heap)),
        match leaf_negate(root_view(**a)) {
            Ok(v) => ref_view(r) == v && *final(slot) == *old(slot) && (r matches Some(w) && made(
                old(heap),
                final(heap),
                *w,
            )),
            Err(code) => r is None && raised(*final(slot), code, "negate"@, Some(*a), None)
                && *final(heap) == *old(heap),
        },
{
    match &**a {
        W_Root::Int(o) => if o.intval == i64::MIN {
            raise(slot, CelErrCode::Overflow, "negate", Some(a.clone()), None)
        } else {
            new_int(heap, -o.intval)
        },
        W_Root::Double(o) => new_double(heap, negate_double(o.floatval)),
        W_Root::Bool(o) => new_bool(o.boolval == 0),
        W_Root::Duration(o) => if o.nanos == i64::MIN {
            raise(slot, CelErrCode::Overflow, "negate", Some(a.clone()), None)
        } else {
            new_duration(heap, -o.nanos)
        },
        _ => raise(slot, CelErrCode::NoSuchOverload, "negate", Some(a.clone()), None),
    }
}

} // verus!
