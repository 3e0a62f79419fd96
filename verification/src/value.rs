//! CEL values.

use crate::error::ExecutionError;
use crate::list::{list_view, storage_readable, storage_view, ListRef, ListStorage};
use crate::map::{lemma_position, map_view, CelMap};
use crate::model::{
    insert_entry, kind_name, lookup, position, position_from, val_type, CoreType, ErrV, TypeV, Val,
    ValueType,
};
use crate::runtime::convert::read_leaf;
use crate::runtime::object::{read_or_null, read_root, W_Root};
use crate::text::str_eq;
use crate::time::{Duration, Timestamp};
use std::sync::Arc;
use vstd::prelude::*;

verus! {

/// A type as a value.
#[derive(Debug)]
pub enum TypeValue {
    Core(CoreType),
    Opaque(Arc<String>),
    Struct(Arc<String>),
}

impl View for TypeValue {
    type V = TypeV;

    open spec fn view(&self) -> TypeV {
        match *self {
            TypeValue::Core(t) => TypeV::Core(t),
            TypeValue::Opaque(name) => TypeV::Opaque(name@),
            TypeValue::Struct(name) => TypeV::Struct(name@),
        }
    }
}

/// A value of a type that the embedding program defines.
///
/// The program keeps the value itself and names it here by a token. It gives two
/// values of one type the same token exactly if they are equal.
#[derive(Debug)]
pub struct HostObject {
    pub runtime_type: Arc<String>,
    pub token: u64,
}

/// An optional value.
#[derive(Debug)]
pub struct OptionalValue {
    pub(crate) value: Option<Value>,
}

/// The values that expressions pass around without looking inside.
#[derive(Debug)]
pub enum Opaque {
    Optional(OptionalValue),
    Type(TypeValue),
    Host(HostObject),
}

/// The value inside an optional.
pub open(crate) spec fn optional_value_view(o: OptionalValue) -> Option<Box<Val>>
    decreases o,
{
    match o.value {
        None => None,
        Some(v) => Some(Box::new(value_view(v))),
    }
}

/// What an opaque is.
pub open spec fn opaque_view(o: Opaque) -> Val
    decreases o,
{
    match o {
        Opaque::Optional(opt) => Val::Optional(optional_value_view(opt)),
        Opaque::Type(t) => Val::Type(t@),
        Opaque::Host(h) => Val::Host(h.runtime_type@, h.token),
    }
}

/// A struct value: its type's name and its fields.
#[derive(Debug)]
pub struct CelStruct {
    pub(crate) name: String,
    pub(crate) fields: Vec<(String, Value)>,
}

/// The fields of a sequence of named values.
pub open spec fn fields_view(fields: Seq<(String, Value)>) -> Seq<(Val, Val)>
    decreases fields,
{
    Seq::new(
        fields.len(),
        |i: int|
            if 0 <= i < fields.len() {
                (Val::Str(fields[i].0@), value_view(fields[i].1))
            } else {
                arbitrary()
            },
    )
}

/// What a struct is.
pub open(crate) spec fn struct_view(s: CelStruct) -> Val
    decreases s,
{
    Val::Struct(s.name@, fields_view(s.fields@))
}

/// No field is there twice.
pub open spec fn distinct_fields(fields: Seq<(String, Value)>) -> bool {
    forall|i: int, j: int|
        0 <= i < fields.len() && 0 <= j < fields.len() && (#[trigger] fields[i]).0@ == (
        #[trigger] fields[j]).0@ ==> i == j
}

impl CelStruct {
    #[verifier::type_invariant]
    pub(crate) open spec fn inv(self) -> bool {
        distinct_fields(self.fields@)
    }

    /// A struct without fields.
    pub fn new(name: String) -> (r: CelStruct)
        ensures
            struct_view(r) == Val::Struct(name@, Seq::empty()),
    {
        let r = CelStruct { name, fields: Vec::new() };
        assert(fields_view(r.fields@) =~= Seq::<(Val, Val)>::empty());
        r
    }

    /// The name of the struct's type.
    pub fn name(&self) -> (r: &String)
        ensures
            struct_view(*self) matches Val::Struct(n, _) && n == r@,
    {
        &self.name
    }

    /// The place of a field.
    fn position(&self, name: &str) -> (r: Option<usize>)
        ensures
            match r {
                Some(i) => i < self.fields@.len() && position(
                    fields_view(self.fields@),
                    Val::Str(name@),
                ) == i,
                None => position(fields_view(self.fields@), Val::Str(name@)) == -1,
            },
    {
        let ghost m = fields_view(self.fields@);
        let ghost k = Val::Str(name@);
        let mut i: usize = 0;
        while i < self.fields.len()
            invariant
                i <= self.fields@.len(),
                m == fields_view(self.fields@),
                k == Val::Str(name@),
                position(m, k) == position_from(m, k, i as int),
            decreases self.fields@.len() - i,
        {
            if str_eq(self.fields[i].0.as_str(), name) {
                return Some(i);
            }
            i = i + 1;
        }
        None
    }

    /// Store `value` in the field `name`.
    pub fn add_field_value(&mut self, name: String, value: Value)
        ensures
            struct_view(*old(self)) matches Val::Struct(n, f) && struct_view(*final(self))
                == Val::Struct(n, insert_entry(f, Val::Str(name@), value@)),
    {
        proof {
            use_type_invariant(&*self);
        }
        let at = self.position(name.as_str());
        let ghost before = fields_view(self.fields@);
        let ghost was = self.fields@;
        let ghost key = Val::Str(name@);
        proof {
            lemma_position(before, key);
        }
        let mut fields: Vec<(String, Value)> = Vec::new();
        std::mem::swap(&mut fields, &mut self.fields);
        match at {
            Some(i) => {
                assert(before[i as int].0 == key);
                assert(was[i as int].0@ == name@);
                fields[i] = (name, value);
            },
            None => {
                fields.push((name, value));
                assert forall|j: int| 0 <= j < was.len() implies (#[trigger] was[j]).0@ != name@ by {
                    assert(before[j].0 != key);
                }
            },
        }
        assert(fields_view(fields@) =~= insert_entry(before, key, value@));
        self.fields = fields;
    }

    /// The value of a field.
    pub fn field_value(&self, name: &str) -> (r: Option<&Value>)
        ensures
            struct_view(*self) matches Val::Struct(_, f) && match r {
                Some(v) => lookup(f, Val::Str(name@)) == Some(v@),
                None => lookup(f, Val::Str(name@)) is None,
            },
    {
        match self.position(name) {
            Some(i) => Some(&self.fields[i].1),
            None => None,
        }
    }

    /// The fields, in the order they came.
    pub fn field_values(&self) -> (r: &Vec<(String, Value)>)
        ensures
            struct_view(*self) matches Val::Struct(_, f) && f == fields_view(r@),
    {
        &self.fields
    }
}

/// The name of a core type.
pub open spec fn core_name(t: CoreType) -> Seq<char> {
    match t {
        CoreType::Int => "int"@,
        CoreType::UInt => "uint"@,
        CoreType::Double => "double"@,
        CoreType::Bool => "bool"@,
        CoreType::String => "string"@,
        CoreType::Bytes => "bytes"@,
        CoreType::Null => "null_type"@,
        CoreType::List => "list"@,
        CoreType::CelMap => "map"@,
        CoreType::Type => "type"@,
        CoreType::Optional => "optional_type"@,
        CoreType::Duration => "duration"@,
        CoreType::Timestamp => "timestamp"@,
    }
}

impl TypeValue {
    /// The type's name.
    pub fn name(&self) -> (r: &str)
        ensures
            r@ == match self@ {
                TypeV::Core(t) => core_name(t),
                TypeV::Opaque(n) => n,
                TypeV::Struct(n) => n,
                TypeV::Class(_) => r@,
            },
    {
        match self {
            TypeValue::Core(t) => match t {
                CoreType::Int => "int",
                CoreType::UInt => "uint",
                CoreType::Double => "double",
                CoreType::Bool => "bool",
                CoreType::String => "string",
                CoreType::Bytes => "bytes",
                CoreType::Null => "null_type",
                CoreType::List => "list",
                CoreType::CelMap => "map",
                CoreType::Type => "type",
                CoreType::Optional => "optional_type",
                CoreType::Duration => "duration",
                CoreType::Timestamp => "timestamp",
            },
            TypeValue::Opaque(n) => n.as_str(),
            TypeValue::Struct(n) => n.as_str(),
        }
    }

    /// Whether the two are one type.
    pub fn same(&self, other: &TypeValue) -> (r: bool)
        ensures
            r == (self@ == other@),
    {
        match (self, other) {
            (TypeValue::Core(a), TypeValue::Core(b)) => *a == *b,
            (TypeValue::Opaque(a), TypeValue::Opaque(b)) => str_eq(a.as_str(), b.as_str()),
            (TypeValue::Struct(a), TypeValue::Struct(b)) => str_eq(a.as_str(), b.as_str()),
            _ => false,
        }
    }
}

impl OptionalValue {
    /// The optional that holds `value`.
    pub fn of(value: Value) -> (r: OptionalValue)
        ensures
            optional_value_view(r) == Some(Box::new(value@)),
    {
        OptionalValue { value: Some(value) }
    }

    /// The empty optional.
    pub fn none() -> (r: OptionalValue)
        ensures
            optional_value_view(r) is None,
    {
        OptionalValue { value: None }
    }

    /// What the optional holds.
    pub fn value(&self) -> (r: Option<&Value>)
        ensures
            match r {
                Some(v) => optional_value_view(*self) == Some(Box::new(v@)),
                None => optional_value_view(*self) is None,
            },
    {
        match &self.value {
            Some(v) => Some(v),
            None => None,
        }
    }
}

/// The name under which an opaque value goes in messages.
pub open spec fn runtime_type_of(v: Val) -> Seq<char> {
    match v {
        Val::Optional(_) => "optional_type"@,
        Val::Host(name, _) => name,
        _ => "type"@,
    }
}

impl Opaque {
    /// The name of the value's type.
    pub fn runtime_type_name(&self) -> (r: &str)
        ensures
            r@ == runtime_type_of(opaque_view(*self)),
    {
        match self {
            Opaque::Optional(_) => "optional_type",
            Opaque::Type(_) => "type",
            Opaque::Host(h) => h.runtime_type.as_str(),
        }
    }
}

/// A CEL value.
#[derive(Debug)]
pub enum Value {
    List(ListRef),
    CelMap(CelMap),
    Int(i64),
    UInt(u64),
    /// The bits of a double.
    Float(u64),
    String(Arc<String>),
    Bytes(Arc<Vec<u8>>),
    Bool(bool),
    Duration(Duration),
    Timestamp(Timestamp),
    Opaque(Arc<Opaque>),
    Struct(Arc<CelStruct>),
    Null,
    /// A value in the form that the runtime allocates.
    Interned(Arc<W_Root>),
}

/// What a value is.
pub open spec fn value_view(v: Value) -> Val
    decreases v,
{
    match v {
        Value::List(l) => Val::List(list_view(l)),
        Value::CelMap(m) => Val::CelMap(map_view(m)),
        Value::Int(i) => Val::Int(i),
        Value::UInt(u) => Val::UInt(u),
        Value::Float(bits) => Val::Double(bits),
        Value::String(s) => Val::Str(s@),
        Value::Bytes(b) => Val::Bytes(b@),
        Value::Bool(b) => Val::Bool(b),
        Value::Duration(d) => Val::Duration(d@),
        Value::Timestamp(t) => Val::Timestamp(t@),
        Value::Opaque(o) => opaque_view(*o),
        Value::Struct(s) => struct_view(*s),
        Value::Null => Val::Null,
        Value::Interned(w) => read_or_null(read_root(*w)),
    }
}

impl Clone for Value {
    /// Containers, strings and opaques are shared, not copied.
    fn clone(&self) -> (r: Value)
        ensures
            r == *self,
    {
        match self {
            Value::List(l) => Value::List(l.clone()),
            Value::CelMap(m) => Value::CelMap(m.clone()),
            Value::Int(i) => Value::Int(*i),
            Value::UInt(u) => Value::UInt(*u),
            Value::Float(f) => Value::Float(*f),
            Value::String(s) => Value::String(s.clone()),
            Value::Bytes(b) => Value::Bytes(b.clone()),
            Value::Bool(b) => Value::Bool(*b),
            Value::Duration(d) => Value::Duration(*d),
            Value::Timestamp(t) => Value::Timestamp(*t),
            Value::Opaque(o) => Value::Opaque(o.clone()),
            Value::Struct(s) => Value::Struct(s.clone()),
            Value::Null => Value::Null,
            Value::Interned(w) => Value::Interned(w.clone()),
        }
    }
}

/// The leaf that a value is held as, if it is held as one.
pub open spec fn held(v: Value) -> Option<W_Root> {
    match v {
        Value::Interned(w) => Some(*w),
        _ => None,
    }
}

impl View for Value {
    type V = Val;

    open spec fn view(&self) -> Val {
        value_view(*self)
    }
}

impl Value {
    /// The public form. A leaf that cannot be read back is null.
    pub fn unpack(&self) -> (r: Value)
        ensures
            r@ == self@,
            !(r is Interned),
            !(*self is Interned) ==> r == *self,
    {
        match self {
            Value::Interned(w) => match read_leaf(w) {
                Ok(v) => v,
                Err(_) => Value::Null,
            },
            _ => self.clone(),
        }
    }

    /// [`Value::unpack`], without a copy of what is public already.
    pub(crate) fn into_public(self) -> (r: Value)
        ensures
            r@ == self@,
            !(r is Interned),
    {
        match self {
            Value::Interned(w) => match read_leaf(&w) {
                Ok(v) => v,
                Err(_) => Value::Null,
            },
            other => other,
        }
    }

    /// The list of `items`.
    pub fn list(items: ListStorage) -> (r: Value)
        requires
            forall|i: int|
                0 <= i < storage_view(items).len() ==> #[trigger] storage_readable(items, i),
        ensures
            r@ == Val::List(storage_view(items)),
    {
        Value::List(ListRef::new(items))
    }

    /// The kind of value that messages name.
    pub fn type_of(&self) -> (r: ValueType)
        ensures
            r == val_type(self@),
    {
        let p = self.unpack();
        match &p {
            Value::List(_) => ValueType::List,
            Value::CelMap(_) => ValueType::CelMap,
            Value::Int(_) => ValueType::Int,
            Value::UInt(_) => ValueType::UInt,
            Value::Float(_) => ValueType::Float,
            Value::String(_) => ValueType::String,
            Value::Bytes(_) => ValueType::Bytes,
            Value::Bool(_) => ValueType::Bool,
            Value::Opaque(_) => ValueType::Opaque,
            Value::Duration(_) => ValueType::Duration,
            Value::Timestamp(_) => ValueType::Timestamp,
            Value::Null | Value::Interned(_) => ValueType::Null,
            Value::Struct(_) => ValueType::Struct,
        }
    }

    /// The error of finding this value where one of another type was needed.
    pub fn error_expected_type(&self, expected: ValueType) -> (r: ExecutionError)
        ensures
            r@ == ErrV::UnexpectedType(kind_name(val_type(self@)), kind_name(expected)),
    {
        ExecutionError::UnexpectedType {
            got: self.type_of().name().to_owned(),
            want: expected.name().to_owned(),
        }
    }
}

impl ValueType {
    /// The name that messages use.
    pub fn name(self) -> (r: &'static str)
        ensures
            r@ == kind_name(self),
    {
        match self {
            ValueType::List => "list",
            ValueType::CelMap => "map",
            ValueType::Int => "int",
            ValueType::UInt => "uint",
            ValueType::Float => "float",
            ValueType::String => "string",
            ValueType::Bytes => "bytes",
            ValueType::Bool => "bool",
            ValueType::Opaque => "opaque",
            ValueType::Duration => "duration",
            ValueType::Timestamp => "timestamp",
            ValueType::Null => "null",
            ValueType::Struct => "struct",
        }
    }
}

} // verus!
