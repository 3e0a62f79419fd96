//! Making values.

use crate::access::key_value;
use crate::key::Key;
use crate::list::{values_view, ListRef};
use crate::map::CelMap;
use crate::model::Val;
use crate::runtime::heap::CelHeap;
use crate::runtime::object::{
    class_of, is_prebuilt, kind_of, new_bool, new_int, new_null, w_kind, CelKind,
};
use crate::time::{Duration, Timestamp};
use crate::value::{opaque_view, Opaque, OptionalValue, TypeValue, Value};
use std::sync::Arc;
use vstd::prelude::*;

verus! {

/// `bytes::Bytes`, a byte string of which other holders may have a share.
#[verifier::external_type_specification]
#[verifier::external_body]
pub struct ExBytes(bytes::Bytes);

/// What a `bytes::Bytes` holds.
pub uninterp spec fn bytes_contents(b: bytes::Bytes) -> Seq<u8>;

/// `to_vec` on a `bytes::Bytes`, which is that of the slice it dereferences to: a
/// copy of what it holds.
#[verifier::external_body]
fn copied_bytes(b: &bytes::Bytes) -> (r: Vec<u8>)
    ensures
        r@ == bytes_contents(*b),
{
    b.to_vec()
}

impl Value {
    /// An `int` in interned form.
    pub fn interned_int(heap: &mut CelHeap, i: i64) -> (r: Value)
        requires
            old(heap).wf(),
        ensures
            final(heap).grown_from(old(heap)),
            r@ == Val::Int(i),
            r is Interned,
            is_prebuilt(i) ==> *final(heap) == *old(heap),
    {
        match new_int(heap, i) {
            Some(w) => Value::Interned(w),
            None => Value::Int(i),
        }
    }

    /// A `bool` in interned form.
    pub fn interned_bool(b: bool) -> (r: Value)
        ensures
            r@ == Val::Bool(b),
            r is Interned,
    {
        match new_bool(b) {
            Some(w) => Value::Interned(w),
            None => Value::Bool(b),
        }
    }

    /// `null` in interned form.
    pub fn interned_null() -> (r: Value)
        ensures
            r@ == Val::Null,
            r is Interned,
    {
        match new_null() {
            Some(w) => Value::Interned(w),
            None => Value::Null,
        }
    }

    /// The family of the value's class.
    pub fn kind(&self) -> (r: CelKind)
        ensures
            r == value_kind(*self),
    {
        match self {
            Value::List(_) => CelKind::List,
            Value::CelMap(_) => CelKind::CelMap,
            Value::Int(_) => CelKind::Int,
            Value::UInt(_) => CelKind::UInt,
            Value::Float(_) => CelKind::Double,
            Value::String(_) => CelKind::Str,
            Value::Bytes(_) => CelKind::Bytes,
            Value::Bool(_) => CelKind::Bool,
            Value::Duration(_) => CelKind::Duration,
            Value::Timestamp(_) => CelKind::Timestamp,
            Value::Opaque(o) => match &**o {
                Opaque::Optional(_) => CelKind::Optional,
                Opaque::Type(TypeValue::Core(_)) => CelKind::Type,
                _ => CelKind::Opaque,
            },
            Value::Struct(_) => CelKind::Struct,
            Value::Null => CelKind::Null,
            Value::Interned(w) => w_kind(w),
        }
    }
}

/// The family of a value's class. A type without a class of its own is a host
/// object.
pub open spec fn value_kind(v: Value) -> CelKind {
    match v {
        Value::List(_) => CelKind::List,
        Value::CelMap(_) => CelKind::CelMap,
        Value::Int(_) => CelKind::Int,
        Value::UInt(_) => CelKind::UInt,
        Value::Float(_) => CelKind::Double,
        Value::String(_) => CelKind::Str,
        Value::Bytes(_) => CelKind::Bytes,
        Value::Bool(_) => CelKind::Bool,
        Value::Duration(_) => CelKind::Duration,
        Value::Timestamp(_) => CelKind::Timestamp,
        Value::Opaque(o) => match *o {
            Opaque::Optional(_) => CelKind::Optional,
            Opaque::Type(TypeValue::Core(_)) => CelKind::Type,
            _ => CelKind::Opaque,
        },
        Value::Struct(_) => CelKind::Struct,
        Value::Null => CelKind::Null,
        Value::Interned(w) => kind_of(class_of(*w)),
    }
}

impl From<i64> for Value {
    fn from(v: i64) -> (r: Value) {
        Value::Int(v)
    }
}

impl vstd::std_specs::convert::FromSpecImpl<i64> for Value {
    open spec fn obeys_from_spec() -> bool {
        true
    }

    open spec fn from_spec(v: i64) -> Value {
        Value::Int(v)
    }
}

impl From<u64> for Value {
    fn from(v: u64) -> (r: Value) {
        Value::UInt(v)
    }
}

impl vstd::std_specs::convert::FromSpecImpl<u64> for Value {
    open spec fn obeys_from_spec() -> bool {
        true
    }

    open spec fn from_spec(v: u64) -> Value {
        Value::UInt(v)
    }
}

impl From<bool> for Value {
    fn from(v: bool) -> (r: Value) {
        Value::Bool(v)
    }
}

impl vstd::std_specs::convert::FromSpecImpl<bool> for Value {
    open spec fn obeys_from_spec() -> bool {
        true
    }

    open spec fn from_spec(v: bool) -> Value {
        Value::Bool(v)
    }
}

impl From<Duration> for Value {
    fn from(v: Duration) -> (r: Value) {
        Value::Duration(v)
    }
}

impl vstd::std_specs::convert::FromSpecImpl<Duration> for Value {
    open spec fn obeys_from_spec() -> bool {
        true
    }

    open spec fn from_spec(v: Duration) -> Value {
        Value::Duration(v)
    }
}

impl From<Timestamp> for Value {
    fn from(v: Timestamp) -> (r: Value) {
        Value::Timestamp(v)
    }
}

impl vstd::std_specs::convert::FromSpecImpl<Timestamp> for Value {
    open spec fn obeys_from_spec() -> bool {
        true
    }

    open spec fn from_spec(v: Timestamp) -> Value {
        Value::Timestamp(v)
    }
}

impl From<Arc<String>> for Value {
    fn from(v: Arc<String>) -> (r: Value) {
        Value::String(v)
    }
}

impl vstd::std_specs::convert::FromSpecImpl<Arc<String>> for Value {
    open spec fn obeys_from_spec() -> bool {
        true
    }

    open spec fn from_spec(v: Arc<String>) -> Value {
        Value::String(v)
    }
}

impl From<String> for Value {
    fn from(v: String) -> (r: Value) {
        Value::String(Arc::new(v))
    }
}

impl vstd::std_specs::convert::FromSpecImpl<String> for Value {
    open spec fn obeys_from_spec() -> bool {
        true
    }

    open spec fn from_spec(v: String) -> Value {
        Value::String(Arc::new(v))
    }
}

impl<'a> From<&'a str> for Value {
    fn from(v: &'a str) -> (r: Value)
        ensures
            r@ == Val::Str(v@),
    {
        Value::String(Arc::new(v.to_owned()))
    }
}

impl<'a> vstd::std_specs::convert::FromSpecImpl<&'a str> for Value {
    open spec fn obeys_from_spec() -> bool {
        false
    }

    open spec fn from_spec(v: &'a str) -> Value {
        arbitrary()
    }
}

impl From<Vec<u8>> for Value {
    fn from(v: Vec<u8>) -> (r: Value) {
        Value::Bytes(Arc::new(v))
    }
}

impl vstd::std_specs::convert::FromSpecImpl<Vec<u8>> for Value {
    open spec fn obeys_from_spec() -> bool {
        true
    }

    open spec fn from_spec(v: Vec<u8>) -> Value {
        Value::Bytes(Arc::new(v))
    }
}

impl From<Vec<Value>> for Value {
    fn from(v: Vec<Value>) -> (r: Value)
        ensures
            r@ == Val::List(values_view(v@)),
    {
        Value::List(ListRef::from_vec(v))
    }
}

impl vstd::std_specs::convert::FromSpecImpl<Vec<Value>> for Value {
    open spec fn obeys_from_spec() -> bool {
        false
    }

    open spec fn from_spec(v: Vec<Value>) -> Value {
        arbitrary()
    }
}

impl From<Key> for Value {
    fn from(v: Key) -> (r: Value)
        ensures
            r@ == v@,
    {
        key_value(&v)
    }
}

impl vstd::std_specs::convert::FromSpecImpl<Key> for Value {
    open spec fn obeys_from_spec() -> bool {
        false
    }

    open spec fn from_spec(v: Key) -> Value {
        arbitrary()
    }
}

impl From<CelMap> for Value {
    fn from(v: CelMap) -> (r: Value) {
        Value::CelMap(v)
    }
}

impl vstd::std_specs::convert::FromSpecImpl<CelMap> for Value {
    open spec fn obeys_from_spec() -> bool {
        true
    }

    open spec fn from_spec(v: CelMap) -> Value {
        Value::CelMap(v)
    }
}

impl From<OptionalValue> for Option<Value> {
    fn from(v: OptionalValue) -> (r: Option<Value>)
        ensures
            match r {
                Some(x) => opaque_view(Opaque::Optional(v)) == Val::Optional(Some(Box::new(x@))),
                None => opaque_view(Opaque::Optional(v)) == Val::Optional(None),
            },
    {
        v.value
    }
}

impl vstd::std_specs::convert::FromSpecImpl<OptionalValue> for Option<Value> {
    open spec fn obeys_from_spec() -> bool {
        false
    }

    open spec fn from_spec(v: OptionalValue) -> Option<Value> {
        arbitrary()
    }
}

impl From<Option<Value>> for Value {
    /// A value, or null where there is none.
    fn from(v: Option<Value>) -> (r: Value) {
        match v {
            Some(x) => x,
            None => Value::Null,
        }
    }
}

impl vstd::std_specs::convert::FromSpecImpl<Option<Value>> for Value {
    open spec fn obeys_from_spec() -> bool {
        true
    }

    open spec fn from_spec(v: Option<Value>) -> Value {
        match v {
            Some(x) => x,
            None => Value::Null,
        }
    }
}

impl<'a> From<&'a bytes::Bytes> for Value {
    /// The bytes that a `bytes::Bytes` holds.
    fn from(v: &'a bytes::Bytes) -> (r: Value)
        ensures
            r@ == Val::Bytes(bytes_contents(*v)),
    {
        Value::Bytes(Arc::new(copied_bytes(v)))
    }
}

impl<'a> vstd::std_specs::convert::FromSpecImpl<&'a bytes::Bytes> for Value {
    open spec fn obeys_from_spec() -> bool {
        false
    }

    open spec fn from_spec(v: &'a bytes::Bytes) -> Value {
        arbitrary()
    }
}

impl From<bytes::Bytes> for Value {
    /// The bytes that a `bytes::Bytes` holds.
    fn from(v: bytes::Bytes) -> (r: Value)
        ensures
            r@ == Val::Bytes(bytes_contents(v)),
    {
        Value::Bytes(Arc::new(copied_bytes(&v)))
    }
}

impl vstd::std_specs::convert::FromSpecImpl<bytes::Bytes> for Value {
    open spec fn obeys_from_spec() -> bool {
        false
    }

    open spec fn from_spec(v: bytes::Bytes) -> Value {
        arbitrary()
    }
}

} // verus!
