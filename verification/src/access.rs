//! Reading containers: keys, indexing, membership, iteration, optionals.

use crate::error::{result_view, ExecutionError, ResolveResult};
use crate::key::{AsKeyRef, Key, KeyRef};
use crate::list::{values_view, ListRef};
use crate::map::CelMap;
use crate::model::{
    contains, field, index, is_key, iterated, key_text, kind_name, list_index, lookup, val_len,
    val_type, ErrV, ResV, Val, ValueType,
};
use crate::ops::{has_leaf, leafable};
use crate::runtime::interned::{
    held_index, held_items, held_result, held_view, held_views, in_public, leaf_contains,
    leaf_field, leaf_has, leaf_item, leaf_items, leaf_or_value, HeldV,
};
use crate::runtime::object::{map_leaf_view, W_Root};
use crate::text::str_eq;
use crate::value::{held, optional_value_view, Opaque, OptionalValue, Value};
use std::sync::Arc;
use crate::runtime::binop::map_has_key;
use vstd::prelude::*;

verus! {

/// A key as a value.
pub fn key_value(key: &Key) -> (r: Value)
    ensures
        r@ == key@,
{
    match key {
        Key::Int(i) => Value::Int(*i),
        Key::Uint(u) => Value::UInt(*u),
        Key::Bool(b) => Value::Bool(*b),
        Key::String(s) => Value::String(s.clone()),
    }
}

/// A key as a message writes it.
pub fn key_display(key: &Key) -> (r: String)
    ensures
        r@ == key_text(key@),
{
    key.as_keyref().text()
}

/// A value as a map key.
pub fn value_key(value: Value) -> (r: Result<Key, ExecutionError>)
    ensures
        match r {
            Ok(k) => is_key(value@) && k@ == value@,
            Err(e) => !is_key(value@) && e@ == ErrV::UnsupportedKeyType(value@),
        },
{
    match value.into_public() {
        Value::Int(i) => Ok(Key::Int(i)),
        Value::UInt(u) => Ok(Key::Uint(u)),
        Value::Bool(b) => Ok(Key::Bool(b)),
        Value::String(s) => Ok(Key::String(s)),
        other => Err(ExecutionError::unsupported_key_type(other)),
    }
}

impl TryFrom<Value> for Key {
    type Error = Value;

    /// The key that a public value is, or the value back.
    fn try_from(value: Value) -> (r: Result<Key, Value>)
        ensures
            match r {
                Ok(k) => !(value is Interned) && k@ == value@,
                Err(v) => v == value && (value is Interned || !is_key(value@)),
            },
    {
        match value {
            Value::Int(i) => Ok(Key::Int(i)),
            Value::UInt(u) => Ok(Key::Uint(u)),
            Value::String(s) => Ok(Key::String(s)),
            Value::Bool(b) => Ok(Key::Bool(b)),
            other => Err(other),
        }
    }
}

impl vstd::std_specs::convert::TryFromSpecImpl<Value> for Key {
    open spec fn obeys_try_from_spec() -> bool {
        false
    }

    open spec fn try_from_spec(value: Value) -> Result<Key, Value> {
        arbitrary()
    }
}

impl<'a> TryFrom<&'a Value> for KeyRef<'a> {
    type Error = Value;

    /// The key that a public value is, borrowed, or a copy of the value.
    fn try_from(value: &'a Value) -> (r: Result<KeyRef<'a>, Value>)
        ensures
            match r {
                Ok(k) => !(value is Interned) && k@ == value@,
                Err(v) => v == *value && (value is Interned || !is_key(value@)),
            },
    {
        match value {
            Value::Int(i) => Ok(KeyRef::Int(*i)),
            Value::UInt(u) => Ok(KeyRef::Uint(*u)),
            Value::String(s) => Ok(KeyRef::String(s.as_str())),
            Value::Bool(b) => Ok(KeyRef::Bool(*b)),
            _ => Err(value.clone()),
        }
    }
}

impl<'a> vstd::std_specs::convert::TryFromSpecImpl<&'a Value> for KeyRef<'a> {
    open spec fn obeys_try_from_spec() -> bool {
        false
    }

    open spec fn try_from_spec(value: &'a Value) -> Result<KeyRef<'a>, Value> {
        arbitrary()
    }
}

/// An element of a list.
fn list_item(list: &ListRef, key: &Value) -> (r: ResolveResult)
    requires
        !(key is Interned),
    ensures
        result_view(r) == list_index(list@, key@),
{
    match key {
        Value::Int(i) => {
            if *i >= 0 && (*i as u64) < list.len() as u64 {
                if let Some(v) = list.get(*i as usize) {
                    return Ok(v);
                }
            }
            Err(ExecutionError::IndexOutOfBounds(key.clone()))
        },
        Value::UInt(u) => {
            if *u < list.len() as u64 {
                if let Some(v) = list.get(*u as usize) {
                    return Ok(v);
                }
            }
            Err(ExecutionError::IndexOutOfBounds(key.clone()))
        },
        other => Err(
            ExecutionError::UnexpectedType {
                got: other.type_of().name().to_owned(),
                want: "int|uint".to_owned(),
            },
        ),
    }
}

/// `container[key]`. What a leaf refers to is handed out as the leaf that it is.
pub fn value_index(container: &Value, key: &Value) -> (r: ResolveResult)
    ensures
        held_result(r) == held_index(container@, held(*container), key@),
{
    proof {
        reveal(held_index);
    }
    if let Value::Interned(w) = container {
        if let Some(r) = leaf_item(w, key) {
            return r;
        }
    }
    match public_index(container, key) {
        Ok(v) => Ok(v.into_public()),
        Err(e) => Err(e),
    }
}

/// [`value_index`] on the public form of the container.
fn public_index(container: &Value, key: &Value) -> (r: ResolveResult)
    ensures
        result_view(r) == index(container@, key@),
{
    let container = container.unpack();
    let key = key.unpack();
    match &container {
        Value::List(list) => list_item(list, &key),
        Value::CelMap(map) => match value_key(key) {
            Err(e) => Err(e),
            Ok(k) => match map.get(&k) {
                Some(v) => Ok(v),
                None => Err(ExecutionError::NoSuchKey(Arc::new(key_display(&k)))),
            },
        },
        Value::Struct(s) => match &key {
            Value::String(name) => match s.field_value(name.as_str()) {
                Some(v) => Ok(v.clone()),
                None => Err(ExecutionError::NoSuchKey(name.clone())),
            },
            other => Err(ExecutionError::UnsupportedIndex(other.clone(), container.clone())),
        },
        _ => Err(ExecutionError::NoSuchOverload),
    }
}

/// `container.name`. What a leaf refers to is handed out as the leaf that it is.
pub fn value_field(container: &Value, name: &str) -> (r: ResolveResult)
    ensures
        held_result(r) == held_index(container@, held(*container), Val::Str(name@)),
{
    proof {
        reveal(held_index);
    }
    if let Value::Interned(w) = container {
        if let Some(r) = leaf_field(w, name) {
            return r;
        }
    }
    match public_field(container, name) {
        Ok(v) => Ok(v.into_public()),
        Err(e) => Err(e),
    }
}

/// [`value_field`] on the public form of the container.
fn public_field(container: &Value, name: &str) -> (r: ResolveResult)
    ensures
        result_view(r) == field(container@, name@),
{
    let container = container.unpack();
    match &container {
        Value::CelMap(map) => match map.get(&KeyRef::String(name)) {
            Some(v) => Ok(v),
            None => Err(ExecutionError::NoSuchKey(Arc::new(name.to_owned()))),
        },
        Value::List(_) => Err(
            ExecutionError::UnexpectedType {
                got: ValueType::String.name().to_owned(),
                want: "int|uint".to_owned(),
            },
        ),
        Value::Struct(s) => match s.field_value(name) {
            Some(v) => Ok(v.clone()),
            None => Err(ExecutionError::NoSuchKey(Arc::new(name.to_owned()))),
        },
        _ => Err(ExecutionError::NoSuchOverload),
    }
}

/// What `has(container.name)` is, given the leaf that the container is held as, if it is
/// held as one.
pub open(crate) spec fn held_has_field(c: Val, leaf: Option<W_Root>, name: Seq<char>) -> ResV {
    match leaf {
        Some(W_Root::CelMap(m)) => Ok(
            Val::Bool(lookup(map_leaf_view(m), Val::Str(name)) is Some),
        ),
        _ => has_field(c, name),
    }
}

/// What `has(container.name)` is of a container in public form.
pub open spec fn has_field(c: Val, name: Seq<char>) -> ResV {
    match c {
        Val::CelMap(m) => Ok(Val::Bool(lookup(m, Val::Str(name)) is Some)),
        Val::Struct(_, _) => Ok(Val::Bool(field(c, name) is Ok)),
        _ => field(c, name),
    }
}

/// `has(container.name)`: whether the field is there. What has no fields fails as
/// `container.name` does.
pub fn value_has_field(container: &Value, name: &str) -> (r: ResolveResult)
    ensures
        result_view(r) == held_has_field(container@, held(*container), name@),
{
    if let Value::Interned(w) = container {
        if let W_Root::CelMap(_) = &**w {
            return Ok(Value::Bool(map_has_key(w, KeyRef::String(name))));
        }
    }
    let c = container.unpack();
    match &c {
        Value::CelMap(map) => Ok(Value::Bool(map.contains_key(&KeyRef::String(name)))),
        Value::Struct(s) => Ok(Value::Bool(s.field_value(name).is_some())),
        _ => public_field(&c, name),
    }
}

/// `k in c`, given the leaves that the two are held as, if they are. A container that
/// is a leaf is asked as the runtime asks it, for the leaf of the needle; a needle that
/// has none has no overload there.
pub open spec fn held_contains(
    c: Val,
    c_leaf: Option<W_Root>,
    k: Val,
    k_leaf: Option<W_Root>,
) -> Result<bool, ErrV> {
    match c_leaf {
        None => contains(c, k),
        Some(w) => if k_leaf is None && !leafable(k) {
            Err(ErrV::NoSuchOverload)
        } else {
            leaf_contains(w, k, leaf_or_value(k, k_leaf))
        },
    }
}

/// `needle in container`. A needle that cannot be a map key is an error, not a
/// miss.
pub fn value_contains(container: &Value, needle: &Value) -> (r: Result<bool, ExecutionError>)
    ensures
        ({
            let want = held_contains(container@, held(*container), needle@, held(*needle));
            match r {
                Ok(b) => want == Ok::<bool, ErrV>(b),
                Err(e) => want == Err::<bool, ErrV>(e@),
            }
        }),
{
    match container {
        Value::Interned(w) => {
            let public = match needle {
                Value::Interned(_) => false,
                _ => true,
            };
            if public && !has_leaf(needle) {
                return Err(ExecutionError::NoSuchOverload);
            }
            leaf_has(w, needle)
        },
        Value::List(list) => Ok(list.contains(needle)),
        Value::CelMap(map) => match value_key(needle.clone()) {
            Ok(k) => Ok(map.contains_key(&k)),
            Err(e) => Err(e),
        },
        _ => Err(ExecutionError::NoSuchOverload),
    }
}

/// The keys of a map, as values.
fn map_keys(map: &CelMap) -> (r: Vec<Value>)
    ensures
        values_view(r@) == Seq::new(map@.len(), |i: int| map@[i].0),
{
    let mut out: Vec<Value> = Vec::new();
    let n: usize = map.len();
    let mut i: usize = 0;
    while i < n
        invariant
            i <= n,
            n == map@.len(),
            out@.len() == i,
            forall|j: int| 0 <= j < i ==> (#[trigger] out@[j])@ == map@[j].0,
        decreases n - i,
    {
        if let Some((k, _)) = map.entry(i) {
            out.push(key_value(&k));
        }
        i = i + 1;
    }
    assert(values_view(out@) =~= Seq::new(map@.len(), |i: int| map@[i].0));
    out
}

/// What a comprehension iterates over: the elements of a list, the keys of a map. What a
/// leaf refers to is handed out as the leaf that it is.
pub fn value_iter(value: &Value) -> (r: Result<Vec<Value>, ExecutionError>)
    ensures
        match r {
            Ok(items) => held_items(value@, held(*value)) == Ok::<Seq<HeldV>, ErrV>(
                held_views(items@),
            ),
            Err(e) => held_items(value@, held(*value)) == Err::<Seq<HeldV>, ErrV>(e@),
        },
{
    if let Value::Interned(w) = value {
        if let Some(items) = leaf_items(w) {
            return Ok(items);
        }
    }
    let v = value.unpack();
    let items = match &v {
        Value::List(list) => list.to_vec(),
        Value::CelMap(map) => map_keys(map),
        _ => {
            return Err(ExecutionError::NoSuchOverload);
        },
    };
    let out = publics(items);
    assert(held_views(out@) =~= Seq::new(
        iterated(value@)->Ok_0.len(),
        |i: int| in_public(iterated(value@)->Ok_0[i]),
    ));
    Ok(out)
}

/// The values in public form.
fn publics(items: Vec<Value>) -> (r: Vec<Value>)
    ensures
        r@.len() == items@.len(),
        forall|i: int|
            0 <= i < r@.len() ==> held_view(#[trigger] r@[i]) == in_public(items@[i]@),
{
    let mut out: Vec<Value> = Vec::new();
    let mut i: usize = 0;
    while i < items.len()
        invariant
            i <= items@.len(),
            out@.len() == i,
            forall|j: int| 0 <= j < i ==> held_view(#[trigger] out@[j]) == in_public(items@[j]@),
        decreases items@.len() - i,
    {
        out.push(items[i].unpack());
        i = i + 1;
    }
    out
}

/// The size of a list, a map, a string in bytes, or a byte string.
pub fn value_len(value: &Value) -> (r: Option<i64>)
    ensures
        r == match val_len(value@) {
            Some(n) => Some(n as i64),
            None => None,
        },
{
    let v = value.unpack();
    match &v {
        Value::List(l) => Some(
            #[verifier::truncate]
            (l.len() as i64),
        ),
        Value::CelMap(m) => Some(
            #[verifier::truncate]
            (m.len() as i64),
        ),
        Value::String(s) => {
            let bytes = s.as_str().as_bytes();
            Some(
                #[verifier::truncate]
                (bytes.len() as i64),
            )
        },
        Value::Bytes(b) => Some(
            #[verifier::truncate]
            (b.len() as i64),
        ),
        _ => None,
    }
}

/// The optional that holds `value`.
pub fn optional_of(value: Value) -> (r: Value)
    ensures
        r@ == Val::Optional(Some(Box::new(value@))),
        held(r) is None,
{
    Value::Opaque(Arc::new(Opaque::Optional(OptionalValue::of(value.into_public()))))
}

/// The empty optional.
pub fn optional_none() -> (r: Value)
    ensures
        r@ == Val::Optional(None),
        held(r) is None,
{
    Value::Opaque(Arc::new(Opaque::Optional(OptionalValue::none())))
}

/// The optional that a value is, if it is one in public form.
pub fn as_optional(value: &Value) -> (r: Option<&OptionalValue>)
    ensures
        match r {
            Some(o) => !(value is Interned) && value@ == Val::Optional(optional_value_view(*o)),
            None => value is Interned || !(value@ is Optional),
        },
{
    match value {
        Value::Opaque(o) => match &**o {
            Opaque::Optional(opt) => Some(opt),
            _ => None,
        },
        _ => None,
    }
}

/// A value seen as an optional.
#[derive(Debug)]
pub enum OptView {
    /// It is none.
    Plain,
    /// It is the empty one.
    Empty,
    /// It holds a value.
    Present(Value),
}

/// See a value as an optional.
pub fn optional_view(value: &Value) -> (r: OptView)
    ensures
        match r {
            OptView::Plain => !(value@ is Optional),
            OptView::Empty => value@ == Val::Optional(None),
            OptView::Present(inner) => value@ == Val::Optional(Some(Box::new(inner@))) && held(
                inner,
            ) is None,
        },
{
    let v = value.unpack();
    match as_optional(&v) {
        None => OptView::Plain,
        Some(opt) => match opt.value() {
            None => OptView::Empty,
            Some(inner) => OptView::Present(inner.unpack()),
        },
    }
}

/// What looking at a value as an `optional` fails with.
pub open spec fn not_optional_error(v: Val, leaf: bool) -> ErrV {
    match v {
        _ if leaf => ErrV::UnexpectedType(kind_name(val_type(v)), "optional_type"@),
        Val::Host(name, _) => if name == "optional_type"@ {
            ErrV::FunctionError("optional"@, "failed to downcast"@)
        } else {
            ErrV::UnexpectedType(name, "optional_type"@)
        },
        Val::Type(_) => ErrV::UnexpectedType("type"@, "optional_type"@),
        _ => ErrV::UnexpectedType(kind_name(val_type(v)), "optional_type"@),
    }
}

/// The optional that a public value is, or the error that it is none. A leaf of the
/// runtime holds no optional that could be lent out, so it is reported by its type.
pub fn expect_optional(value: &Value) -> (r: Result<&OptionalValue, ExecutionError>)
    ensures
        match r {
            Ok(o) => !(value is Interned) && value@ == Val::Optional(optional_value_view(*o)),
            Err(e) => (value is Interned || !(value@ is Optional)) && e@ == not_optional_error(
                value@,
                value is Interned,
            ),
        },
{
    match value {
        Value::Opaque(o) => match &**o {
            Opaque::Optional(opt) => Ok(opt),
            Opaque::Host(h) => if str_eq(h.runtime_type.as_str(), "optional_type") {
                Err(ExecutionError::function_error("optional", "failed to downcast"))
            } else {
                Err(
                    ExecutionError::UnexpectedType {
                        got: (*h.runtime_type).clone(),
                        want: "optional_type".to_owned(),
                    },
                )
            },
            Opaque::Type(_) => Err(
                ExecutionError::UnexpectedType {
                    got: "type".to_owned(),
                    want: "optional_type".to_owned(),
                },
            ),
        },
        v => Err(
            ExecutionError::UnexpectedType {
                got: v.type_of().name().to_owned(),
                want: "optional_type".to_owned(),
            },
        ),
    }
}

impl<'a> TryFrom<&'a Value> for &'a OptionalValue {
    type Error = ExecutionError;

    fn try_from(value: &'a Value) -> (r: Result<&'a OptionalValue, ExecutionError>)
        ensures
            match r {
                Ok(o) => !(value is Interned) && value@ == Val::Optional(optional_value_view(*o)),
                Err(e) => (value is Interned || !(value@ is Optional)) && e@ == not_optional_error(
                    value@,
                    value is Interned,
                ),
            },
    {
        expect_optional(value)
    }
}

impl<'a> vstd::std_specs::convert::TryFromSpecImpl<&'a Value> for &'a OptionalValue {
    open spec fn obeys_try_from_spec() -> bool {
        false
    }

    open spec fn try_from_spec(value: &'a Value) -> Result<&'a OptionalValue, ExecutionError> {
        arbitrary()
    }
}

/// The boolean that a value is, if it is one.
pub fn as_bool(value: &Value) -> (r: Option<bool>)
    ensures
        r == match value@ {
            Val::Bool(b) => Some(b),
            _ => None,
        },
{
    match value.unpack() {
        Value::Bool(b) => Some(b),
        _ => None,
    }
}

} // verus!
