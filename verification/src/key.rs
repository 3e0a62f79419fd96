//! Map keys.

use crate::model::{is_key, key_text, other_integer, Val};
use crate::text::{i64_text, str_eq, u64_text};
use std::sync::Arc;
use vstd::prelude::*;

verus! {

/// A map key.
#[derive(Debug)]
pub enum Key {
    Int(i64),
    Uint(u64),
    Bool(bool),
    String(Arc<String>),
}

/// The value that a key is.
pub open spec fn key_view(k: Key) -> Val {
    match k {
        Key::Int(i) => Val::Int(i),
        Key::Uint(u) => Val::UInt(u),
        Key::Bool(b) => Val::Bool(b),
        Key::String(s) => Val::Str(s@),
    }
}

impl View for Key {
    type V = Val;

    open spec fn view(&self) -> Val {
        key_view(*self)
    }
}

impl Clone for Key {
    fn clone(&self) -> (r: Key)
        ensures
            r == *self,
    {
        match self {
            Key::Int(i) => Key::Int(*i),
            Key::Uint(u) => Key::Uint(*u),
            Key::Bool(b) => Key::Bool(*b),
            Key::String(s) => Key::String(s.clone()),
        }
    }
}

/// A borrowed [`Key`], so that looking a key up allocates nothing.
#[derive(Clone, Copy, Debug)]
pub enum KeyRef<'a> {
    Int(i64),
    Uint(u64),
    Bool(bool),
    String(&'a str),
}

/// The value that a borrowed key is.
pub open spec fn keyref_view(k: KeyRef<'_>) -> Val {
    match k {
        KeyRef::Int(i) => Val::Int(i),
        KeyRef::Uint(u) => Val::UInt(u),
        KeyRef::Bool(b) => Val::Bool(b),
        KeyRef::String(s) => Val::Str(s@),
    }
}

impl<'a> View for KeyRef<'a> {
    type V = Val;

    open spec fn view(&self) -> Val {
        keyref_view(*self)
    }
}

impl<'a> KeyRef<'a> {
    /// Whether the two are the same key. Keys of different types never are.
    pub fn same(self, other: KeyRef<'_>) -> (r: bool)
        ensures
            r == (self@ == other@),
    {
        match (self, other) {
            (KeyRef::Int(a), KeyRef::Int(b)) => a == b,
            (KeyRef::Uint(a), KeyRef::Uint(b)) => a == b,
            (KeyRef::Bool(a), KeyRef::Bool(b)) => a == b,
            (KeyRef::String(a), KeyRef::String(b)) => str_eq(a, b),
            _ => false,
        }
    }

    /// The same number as the other integer type, if that type has it.
    pub fn other_integer(self) -> (r: Option<KeyRef<'static>>)
        ensures
            match r {
                Some(k) => other_integer(self@) == Some(k@),
                None => other_integer(self@) is None,
            },
    {
        match self {
            KeyRef::Int(i) => if i >= 0 {
                Some(KeyRef::Uint(i as u64))
            } else {
                None
            },
            KeyRef::Uint(u) => if u <= 0x7FFF_FFFF_FFFF_FFFF {
                Some(KeyRef::Int(u as i64))
            } else {
                None
            },
            _ => None,
        }
    }

    /// The key as a message writes it.
    pub fn text(self) -> (r: String)
        ensures
            r@ == key_text(self@),
    {
        match self {
            KeyRef::Int(i) => i64_text(i),
            KeyRef::Uint(u) => u64_text(u),
            KeyRef::Bool(b) => if b {
                "true".to_owned()
            } else {
                "false".to_owned()
            },
            KeyRef::String(s) => s.to_owned(),
        }
    }
}

/// What can be looked up as a key.
pub trait AsKeyRef {
    /// The key as a value.
    spec fn key_val(&self) -> Val;

    /// The key, borrowed.
    fn as_keyref(&self) -> (r: KeyRef<'_>)
        ensures
            r@ == self.key_val(),
    ;
}

impl AsKeyRef for Key {
    open spec fn key_val(&self) -> Val {
        key_view(*self)
    }

    fn as_keyref(&self) -> (r: KeyRef<'_>) {
        match self {
            Key::Int(i) => KeyRef::Int(*i),
            Key::Uint(u) => KeyRef::Uint(*u),
            Key::Bool(b) => KeyRef::Bool(*b),
            Key::String(s) => KeyRef::String(s.as_str()),
        }
    }
}

impl<'a> AsKeyRef for KeyRef<'a> {
    open spec fn key_val(&self) -> Val {
        keyref_view(*self)
    }

    fn as_keyref(&self) -> (r: KeyRef<'_>) {
        *self
    }
}

impl PartialEq for Key {
    fn eq(&self, other: &Key) -> (r: bool) {
        self.as_keyref().same(other.as_keyref())
    }
}

impl vstd::std_specs::cmp::PartialEqSpecImpl for Key {
    open spec fn obeys_eq_spec() -> bool {
        true
    }

    open spec fn eq_spec(&self, other: &Key) -> bool {
        self@ == other@
    }
}

impl Eq for Key {

}

/// Map index, field and `has`: the key itself first, then the same number as the
/// other integer type. `exact` looks one key up.
pub fn map_get_by_key<T, F: Fn(KeyRef<'_>) -> Option<T>>(exact: F, needle: KeyRef<'_>) -> (r:
    Option<T>)
    requires
        forall|k: KeyRef<'_>| #[trigger] call_requires(exact, (k,)),
    ensures
        exists|first: Option<T>| #[trigger]
            call_ensures(exact, (needle,), first) && match first {
                Some(_) => r == first,
                None => match other_integer(needle@) {
                    Some(o) => exists|k: KeyRef<'_>|
                        k@ == o && #[trigger] call_ensures(exact, (k,), r),
                    None => r is None,
                },
            },
{
    let first = exact(needle);
    if first.is_some() {
        return first;
    }
    match needle.other_integer() {
        Some(k) => exact(k),
        None => None,
    }
}

/// `in` on a map: exactly the key, without a second look under the other integer
/// type. `exact` answers for one key.
pub fn map_has_exact_key<F: Fn(KeyRef<'_>) -> bool>(exact: F, needle: KeyRef<'_>) -> (r: bool)
    requires
        call_requires(exact, (needle,)),
    ensures
        call_ensures(exact, (needle,), r),
{
    exact(needle)
}

impl From<String> for Key {
    fn from(v: String) -> (r: Key) {
        Key::String(Arc::new(v))
    }
}

impl vstd::std_specs::convert::FromSpecImpl<String> for Key {
    open spec fn obeys_from_spec() -> bool {
        true
    }

    open spec fn from_spec(v: String) -> Key {
        Key::String(Arc::new(v))
    }
}

impl From<Arc<String>> for Key {
    fn from(v: Arc<String>) -> (r: Key) {
        Key::String(v)
    }
}

impl vstd::std_specs::convert::FromSpecImpl<Arc<String>> for Key {
    open spec fn obeys_from_spec() -> bool {
        true
    }

    open spec fn from_spec(v: Arc<String>) -> Key {
        Key::String(v)
    }
}

impl<'a> From<&'a str> for Key {
    fn from(v: &'a str) -> (r: Key)
        ensures
            r@ == Val::Str(v@),
    {
        Key::String(Arc::new(v.to_owned()))
    }
}

impl<'a> vstd::std_specs::convert::FromSpecImpl<&'a str> for Key {
    open spec fn obeys_from_spec() -> bool {
        false
    }

    open spec fn from_spec(v: &'a str) -> Key {
        arbitrary()
    }
}

impl From<bool> for Key {
    fn from(v: bool) -> (r: Key) {
        Key::Bool(v)
    }
}

impl vstd::std_specs::convert::FromSpecImpl<bool> for Key {
    open spec fn obeys_from_spec() -> bool {
        true
    }

    open spec fn from_spec(v: bool) -> Key {
        Key::Bool(v)
    }
}

impl From<i64> for Key {
    fn from(v: i64) -> (r: Key) {
        Key::Int(v)
    }
}

impl vstd::std_specs::convert::FromSpecImpl<i64> for Key {
    open spec fn obeys_from_spec() -> bool {
        true
    }

    open spec fn from_spec(v: i64) -> Key {
        Key::Int(v)
    }
}

impl From<i32> for Key {
    fn from(v: i32) -> (r: Key) {
        Key::Int(v.into())
    }
}

impl vstd::std_specs::convert::FromSpecImpl<i32> for Key {
    open spec fn obeys_from_spec() -> bool {
        true
    }

    open spec fn from_spec(v: i32) -> Key {
        Key::Int(v as i64)
    }
}

impl From<u64> for Key {
    fn from(v: u64) -> (r: Key) {
        Key::Uint(v)
    }
}

impl vstd::std_specs::convert::FromSpecImpl<u64> for Key {
    open spec fn obeys_from_spec() -> bool {
        true
    }

    open spec fn from_spec(v: u64) -> Key {
        Key::Uint(v)
    }
}

impl From<u32> for Key {
    fn from(v: u32) -> (r: Key) {
        Key::Uint(v.into())
    }
}

impl vstd::std_specs::convert::FromSpecImpl<u32> for Key {
    open spec fn obeys_from_spec() -> bool {
        true
    }

    open spec fn from_spec(v: u32) -> Key {
        Key::Uint(v as u64)
    }
}

/// Every key is a value that can be one.
pub proof fn key_is_key(k: Key)
    ensures
        is_key(k@),
{
}

} // verus!
