//! The value classes and their leaves.
//!
//! Every value of the runtime is a leaf: a header that says where it was
//! allocated, and the payload of its class. A [`CelRef`] refers to a leaf of any
//! class, or to none.

use crate::list::{ints_view, list_view, ListRef};
use crate::map::{map_view, CelMap};
use crate::model::{
    insert_entry, is_key, lookup, position, position_from, CoreType, ReadError, TypeV, Val,
};
use crate::runtime::heap::{allocated_in, CelHeap, HostIndex, Space};
use crate::runtime::lltype::{malloc_typed, malloc_typed_immortal};
use crate::runtime::object_array::{
    block_bytes, bytes_base, bytes_capacity, bytes_of, new_bytes_block, new_items_block,
    new_items_block_zeroed, reserve_bytes, reserve_words, reserved, CelBytesBlock, CelItemsBlock,
};
use crate::text::str_eq;
use crate::time::{is_offset, Instant};
use crate::value::HostObject;
use std::sync::Arc;
use vstd::prelude::*;
use vstd::utf8::encode_utf8;

verus! {

/// Where an object was allocated. No two live objects share a place.
#[derive(Clone, Copy, Debug, PartialEq, Eq, Structural)]
pub enum Place {
    /// A prebuilt object, by its number.
    Immortal(u32),
    /// A segment of the constant pool and the offset in it.
    Constant(usize, usize),
    /// A segment of the old space and the offset in it.
    Old(usize, usize),
    /// A segment of the nursery and the offset in it.
    Young(usize, usize),
    /// A binding region, its segment and the offset in it.
    Region(u64, usize, usize),
}

/// The coarse family that a value belongs to.
#[derive(Clone, Copy, Debug, PartialEq, Eq, Structural)]
pub enum CelKind {
    Null,
    Bool,
    Int,
    UInt,
    Double,
    Timestamp,
    Duration,
    Type,
    Optional,
    Bytes,
    Str,
    List,
    CelMap,
    Struct,
    /// A host object.
    Opaque,
    /// The activation record, which is no CEL value.
    Frame,
}

/// One value class.
#[derive(Clone, Copy, Debug, PartialEq, Eq, Structural)]
pub enum CelClass {
    Int,
    UInt,
    Double,
    Bool,
    Duration,
    Optional,
    Null,
    Timestamp,
    Bytes,
    Str,
    IntColumn,
    List,
    CelMap,
    Struct,
    Type,
    Frame,
    Opaque,
}

/// The header of every leaf.
#[derive(Clone, Copy, Debug, PartialEq, Eq, Structural)]
pub struct CelObject {
    pub at: Place,
}

/// A reference to a leaf of any class, or to none.
pub type CelRef = Option<Arc<W_Root>>;

/// Another reference to the same leaf.
pub fn clone_ref(r: &CelRef) -> (out: CelRef)
    ensures
        out == *r,
{
    match r {
        Some(w) => Some(w.clone()),
        None => None,
    }
}

/// A CEL `int`.
#[allow(non_camel_case_types)]
#[derive(Debug)]
pub struct W_IntObject {
    pub ob_header: CelObject,
    pub intval: i64,
}

/// A CEL `uint`.
#[allow(non_camel_case_types)]
#[derive(Debug)]
pub struct W_UIntObject {
    pub ob_header: CelObject,
    pub uintval: u64,
}

/// A CEL `double`, by its bits.
#[allow(non_camel_case_types)]
#[derive(Debug)]
pub struct W_DoubleObject {
    pub ob_header: CelObject,
    pub floatval: u64,
}

/// A CEL `bool`: zero is false.
#[allow(non_camel_case_types)]
#[derive(Debug)]
pub struct W_BoolObject {
    pub ob_header: CelObject,
    pub boolval: i64,
}

/// A CEL `null`.
#[allow(non_camel_case_types)]
#[derive(Debug)]
pub struct W_NullObject {
    pub ob_header: CelObject,
}

/// A CEL `duration`, in nanoseconds.
#[allow(non_camel_case_types)]
#[derive(Debug)]
pub struct W_DurationObject {
    pub ob_header: CelObject,
    pub nanos: i64,
}

/// A CEL `timestamp`: nanoseconds since the Unix epoch, and the offset in seconds
/// that it is written with.
#[allow(non_camel_case_types)]
#[derive(Debug)]
pub struct W_TimestampObject {
    pub ob_header: CelObject,
    pub nanos: i64,
    pub off_s: i64,
}

/// A CEL `optional`: the value it wraps, or nothing.
#[allow(non_camel_case_types)]
#[derive(Debug)]
pub struct W_OptionalObject {
    pub ob_header: CelObject,
    pub w_value: CelRef,
}

/// A CEL type value. `cls` is the class of the type that the value denotes.
#[allow(non_camel_case_types)]
#[derive(Debug)]
pub struct W_TypeObject {
    pub ob_header: CelObject,
    pub cls: CelClass,
}

/// A CEL `bytes`.
#[allow(non_camel_case_types)]
#[derive(Debug)]
pub struct W_BytesObject {
    pub ob_header: CelObject,
    pub(crate) data: CelBytesBlock,
}

/// A CEL `string`.
#[allow(non_camel_case_types)]
#[derive(Debug)]
pub struct W_StringObject {
    pub ob_header: CelObject,
    pub chars: Arc<String>,
}

/// An unboxed column of integers.
#[allow(non_camel_case_types)]
#[derive(Debug)]
pub struct W_IntColumn {
    pub ob_header: CelObject,
    pub(crate) data: Vec<i64>,
}

/// How a list leaf holds its elements.
#[derive(Clone, Copy, Debug, PartialEq, Eq, Structural)]
pub enum ListStrategy {
    /// References in the items block.
    Object,
    /// Unboxed integers in an int column.
    Ints,
    /// A list that the host table keeps.
    Window,
}

/// A CEL `list`.
#[allow(non_camel_case_types)]
#[derive(Debug)]
pub struct W_ListObject {
    pub(crate) ob_header: CelObject,
    pub(crate) strategy: ListStrategy,
    /// The int column, or the host object of a window.
    pub(crate) storage: CelRef,
    pub(crate) items: CelItemsBlock,
    pub(crate) start: usize,
    pub(crate) length: usize,
}

/// How a map leaf holds its entries.
#[derive(Clone, Copy, Debug, PartialEq, Eq, Structural)]
pub enum MapStrategy {
    /// Keys and values, in turn, in the items block.
    Object,
    /// A record row that the host table keeps.
    Record,
}

/// A CEL `map`.
#[allow(non_camel_case_types)]
#[derive(Debug)]
pub struct W_MapObject {
    pub(crate) ob_header: CelObject,
    pub(crate) strategy: MapStrategy,
    pub(crate) storage: CelRef,
    pub(crate) items: CelItemsBlock,
    /// The number of entries, not of references.
    pub(crate) length: usize,
}

/// A CEL `struct`: names and values, in turn, in the fields block.
#[allow(non_camel_case_types)]
#[derive(Debug)]
pub struct W_StructObject {
    pub(crate) ob_header: CelObject,
    pub(crate) name: Arc<String>,
    pub(crate) fields: CelItemsBlock,
    pub(crate) length: usize,
}

/// What the host table keeps for a leaf.
#[derive(Debug)]
pub enum Host {
    Object(HostObject),
    OpaqueType(Arc<String>),
    StructType(Arc<String>),
    List(ListRef),
    CelMap(CelMap),
}

/// A host object: the slot of the host table, and what was there.
#[allow(non_camel_case_types)]
#[derive(Debug)]
pub struct W_OpaqueObject {
    pub ob_header: CelObject,
    pub w_type: CelRef,
    pub host_index: HostIndex,
    pub host: Option<Host>,
}

/// The stack of an activation record.
#[derive(Debug)]
pub struct VableStack {
    pub(crate) block: CelItemsBlock,
}

/// The activation record.
#[allow(non_camel_case_types)]
#[derive(Debug)]
pub struct W_CelFrame {
    pub ob_header: CelObject,
    pub vable_token: usize,
    pub last_instr: i64,
    pub valuestackdepth: i64,
    pub locals_stack_w: VableStack,
    pub n_slots: i64,
}

/// A leaf of any class.
#[allow(non_camel_case_types)]
#[derive(Debug)]
pub enum W_Root {
    Int(W_IntObject),
    UInt(W_UIntObject),
    Double(W_DoubleObject),
    Bool(W_BoolObject),
    Duration(W_DurationObject),
    Optional(W_OptionalObject),
    Null(W_NullObject),
    Timestamp(W_TimestampObject),
    Bytes(W_BytesObject),
    Str(W_StringObject),
    IntColumn(W_IntColumn),
    List(W_ListObject),
    CelMap(W_MapObject),
    Struct(W_StructObject),
    Type(W_TypeObject),
    Frame(W_CelFrame),
    Opaque(W_OpaqueObject),
}

/// Where a leaf was allocated.
pub open(crate) spec fn place_of(w: W_Root) -> Place {
    match w {
        W_Root::Int(o) => o.ob_header.at,
        W_Root::UInt(o) => o.ob_header.at,
        W_Root::Double(o) => o.ob_header.at,
        W_Root::Bool(o) => o.ob_header.at,
        W_Root::Duration(o) => o.ob_header.at,
        W_Root::Optional(o) => o.ob_header.at,
        W_Root::Null(o) => o.ob_header.at,
        W_Root::Timestamp(o) => o.ob_header.at,
        W_Root::Bytes(o) => o.ob_header.at,
        W_Root::Str(o) => o.ob_header.at,
        W_Root::IntColumn(o) => o.ob_header.at,
        W_Root::List(o) => o.ob_header.at,
        W_Root::CelMap(o) => o.ob_header.at,
        W_Root::Struct(o) => o.ob_header.at,
        W_Root::Type(o) => o.ob_header.at,
        W_Root::Frame(o) => o.ob_header.at,
        W_Root::Opaque(o) => o.ob_header.at,
    }
}

/// Where a leaf was allocated.
pub fn w_place(w: &W_Root) -> (r: Place)
    ensures
        r == place_of(*w),
{
    match w {
        W_Root::Int(o) => o.ob_header.at,
        W_Root::UInt(o) => o.ob_header.at,
        W_Root::Double(o) => o.ob_header.at,
        W_Root::Bool(o) => o.ob_header.at,
        W_Root::Duration(o) => o.ob_header.at,
        W_Root::Optional(o) => o.ob_header.at,
        W_Root::Null(o) => o.ob_header.at,
        W_Root::Timestamp(o) => o.ob_header.at,
        W_Root::Bytes(o) => o.ob_header.at,
        W_Root::Str(o) => o.ob_header.at,
        W_Root::IntColumn(o) => o.ob_header.at,
        W_Root::List(o) => o.ob_header.at,
        W_Root::CelMap(o) => o.ob_header.at,
        W_Root::Struct(o) => o.ob_header.at,
        W_Root::Type(o) => o.ob_header.at,
        W_Root::Frame(o) => o.ob_header.at,
        W_Root::Opaque(o) => o.ob_header.at,
    }
}

/// The class of a leaf.
pub open spec fn class_of(w: W_Root) -> CelClass {
    match w {
        W_Root::Int(_) => CelClass::Int,
        W_Root::UInt(_) => CelClass::UInt,
        W_Root::Double(_) => CelClass::Double,
        W_Root::Bool(_) => CelClass::Bool,
        W_Root::Duration(_) => CelClass::Duration,
        W_Root::Optional(_) => CelClass::Optional,
        W_Root::Null(_) => CelClass::Null,
        W_Root::Timestamp(_) => CelClass::Timestamp,
        W_Root::Bytes(_) => CelClass::Bytes,
        W_Root::Str(_) => CelClass::Str,
        W_Root::IntColumn(_) => CelClass::IntColumn,
        W_Root::List(_) => CelClass::List,
        W_Root::CelMap(_) => CelClass::CelMap,
        W_Root::Struct(_) => CelClass::Struct,
        W_Root::Type(_) => CelClass::Type,
        W_Root::Frame(_) => CelClass::Frame,
        W_Root::Opaque(_) => CelClass::Opaque,
    }
}

/// The class of a leaf.
pub fn w_type(w: &W_Root) -> (r: CelClass)
    ensures
        r == class_of(*w),
{
    match w {
        W_Root::Int(_) => CelClass::Int,
        W_Root::UInt(_) => CelClass::UInt,
        W_Root::Double(_) => CelClass::Double,
        W_Root::Bool(_) => CelClass::Bool,
        W_Root::Duration(_) => CelClass::Duration,
        W_Root::Optional(_) => CelClass::Optional,
        W_Root::Null(_) => CelClass::Null,
        W_Root::Timestamp(_) => CelClass::Timestamp,
        W_Root::Bytes(_) => CelClass::Bytes,
        W_Root::Str(_) => CelClass::Str,
        W_Root::IntColumn(_) => CelClass::IntColumn,
        W_Root::List(_) => CelClass::List,
        W_Root::CelMap(_) => CelClass::CelMap,
        W_Root::Struct(_) => CelClass::Struct,
        W_Root::Type(_) => CelClass::Type,
        W_Root::Frame(_) => CelClass::Frame,
        W_Root::Opaque(_) => CelClass::Opaque,
    }
}

/// The family of a class.
pub open spec fn kind_of(c: CelClass) -> CelKind {
    match c {
        CelClass::Int => CelKind::Int,
        CelClass::UInt => CelKind::UInt,
        CelClass::Double => CelKind::Double,
        CelClass::Bool => CelKind::Bool,
        CelClass::Duration => CelKind::Duration,
        CelClass::Optional => CelKind::Optional,
        CelClass::Null => CelKind::Null,
        CelClass::Timestamp => CelKind::Timestamp,
        CelClass::Bytes => CelKind::Bytes,
        CelClass::Str => CelKind::Str,
        CelClass::IntColumn => CelKind::List,
        CelClass::List => CelKind::List,
        CelClass::CelMap => CelKind::CelMap,
        CelClass::Struct => CelKind::Struct,
        CelClass::Type => CelKind::Type,
        CelClass::Frame => CelKind::Frame,
        CelClass::Opaque => CelKind::Opaque,
    }
}

impl CelClass {
    /// The family of the class.
    pub fn kind(self) -> (r: CelKind)
        ensures
            r == kind_of(self),
    {
        match self {
            CelClass::Int => CelKind::Int,
            CelClass::UInt => CelKind::UInt,
            CelClass::Double => CelKind::Double,
            CelClass::Bool => CelKind::Bool,
            CelClass::Duration => CelKind::Duration,
            CelClass::Optional => CelKind::Optional,
            CelClass::Null => CelKind::Null,
            CelClass::Timestamp => CelKind::Timestamp,
            CelClass::Bytes => CelKind::Bytes,
            CelClass::Str => CelKind::Str,
            CelClass::IntColumn => CelKind::List,
            CelClass::List => CelKind::List,
            CelClass::CelMap => CelKind::CelMap,
            CelClass::Struct => CelKind::Struct,
            CelClass::Type => CelKind::Type,
            CelClass::Frame => CelKind::Frame,
            CelClass::Opaque => CelKind::Opaque,
        }
    }

    /// The name of the class.
    pub fn name(self) -> (r: &'static str)
        ensures
            r@ == class_name(self),
    {
        match self {
            CelClass::Int => "int",
            CelClass::UInt => "uint",
            CelClass::Double => "double",
            CelClass::Bool => "bool",
            CelClass::Duration => "duration",
            CelClass::Optional => "optional_type",
            CelClass::Null => "null_type",
            CelClass::Timestamp => "timestamp",
            CelClass::Bytes => "bytes",
            CelClass::Str => "string",
            CelClass::IntColumn => "int_column",
            CelClass::List => "list",
            CelClass::CelMap => "map",
            CelClass::Struct => "struct",
            CelClass::Type => "type",
            CelClass::Frame => "frame",
            CelClass::Opaque => "opaque",
        }
    }
}

/// The name of a class.
pub open spec fn class_name(c: CelClass) -> Seq<char> {
    match c {
        CelClass::Int => "int"@,
        CelClass::UInt => "uint"@,
        CelClass::Double => "double"@,
        CelClass::Bool => "bool"@,
        CelClass::Duration => "duration"@,
        CelClass::Optional => "optional_type"@,
        CelClass::Null => "null_type"@,
        CelClass::Timestamp => "timestamp"@,
        CelClass::Bytes => "bytes"@,
        CelClass::Str => "string"@,
        CelClass::IntColumn => "int_column"@,
        CelClass::List => "list"@,
        CelClass::CelMap => "map"@,
        CelClass::Struct => "struct"@,
        CelClass::Type => "type"@,
        CelClass::Frame => "frame"@,
        CelClass::Opaque => "opaque"@,
    }
}

/// The family of a leaf.
pub fn w_kind(w: &W_Root) -> (r: CelKind)
    ensures
        r == kind_of(class_of(*w)),
{
    w_type(w).kind()
}

/// The type that a class is the class of.
pub open spec fn class_type(c: CelClass) -> TypeV {
    match c {
        CelClass::Int => TypeV::Core(CoreType::Int),
        CelClass::UInt => TypeV::Core(CoreType::UInt),
        CelClass::Double => TypeV::Core(CoreType::Double),
        CelClass::Bool => TypeV::Core(CoreType::Bool),
        CelClass::Duration => TypeV::Core(CoreType::Duration),
        CelClass::Optional => TypeV::Core(CoreType::Optional),
        CelClass::Null => TypeV::Core(CoreType::Null),
        CelClass::Timestamp => TypeV::Core(CoreType::Timestamp),
        CelClass::Bytes => TypeV::Core(CoreType::Bytes),
        CelClass::Str => TypeV::Core(CoreType::String),
        CelClass::List => TypeV::Core(CoreType::List),
        CelClass::CelMap => TypeV::Core(CoreType::CelMap),
        CelClass::Type => TypeV::Core(CoreType::Type),
        CelClass::Opaque | CelClass::Struct | CelClass::Frame | CelClass::IntColumn =>
            TypeV::Class(c),
    }
}

/// What a reference refers to.
pub open(crate) spec fn ref_view(r: CelRef) -> Val
    decreases r,
{
    match r {
        Some(w) => root_view(*w),
        None => Val::Invalid(ReadError::NullPointer),
    }
}

/// What the references of a block refer to.
pub open(crate) spec fn refs_view(slots: Seq<CelRef>) -> Seq<Val>
    decreases slots,
{
    Seq::new(
        slots.len(),
        |i: int|
            if 0 <= i < slots.len() {
                ref_view(slots[i])
            } else {
                arbitrary()
            },
    )
}

/// What a host is as a value.
pub open spec fn host_view(h: Host) -> Val
    decreases h,
{
    match h {
        Host::Object(o) => Val::Host(o.runtime_type@, o.token),
        Host::OpaqueType(name) => Val::Type(TypeV::Opaque(name@)),
        Host::StructType(name) => Val::Type(TypeV::Struct(name@)),
        Host::List(_) | Host::CelMap(_) => Val::Invalid(ReadError::Opaque),
    }
}

/// The list that a host object keeps.
pub open spec fn hosted_list(r: CelRef) -> Seq<Val>
    decreases r,
{
    match r {
        Some(w) => match *w {
            W_Root::Opaque(o) => match o.host {
                Some(Host::List(l)) => list_view(l),
                _ => Seq::empty(),
            },
            _ => Seq::empty(),
        },
        None => Seq::empty(),
    }
}

/// The map that a host object keeps.
pub open spec fn hosted_map(r: CelRef) -> Seq<(Val, Val)>
    decreases r,
{
    match r {
        Some(w) => match *w {
            W_Root::Opaque(o) => match o.host {
                Some(Host::CelMap(m)) => map_view(m),
                _ => Seq::empty(),
            },
            _ => Seq::empty(),
        },
        None => Seq::empty(),
    }
}

/// The integers of an int column.
pub open(crate) spec fn column_ints(r: CelRef) -> Seq<i64> {
    match r {
        Some(w) => match *w {
            W_Root::IntColumn(c) => c.data@,
            _ => Seq::empty(),
        },
        None => Seq::empty(),
    }
}

/// The elements of a list leaf.
pub open(crate) spec fn list_leaf_view(l: W_ListObject) -> Seq<Val>
    decreases l,
{
    match l.strategy {
        ListStrategy::Object => refs_view(l.items.slots@).subrange(
            l.start as int,
            l.start + l.length,
        ),
        ListStrategy::Ints => Seq::new(
            l.length as nat,
            |i: int| Val::Int(column_ints(l.storage)[l.start + i]),
        ),
        ListStrategy::Window => hosted_list(l.storage).subrange(
            l.start as int,
            l.start + l.length,
        ),
    }
}

/// Keys and values that stand in turn, as entries.
pub open spec fn paired(items: Seq<Val>, n: nat) -> Seq<(Val, Val)> {
    Seq::new(n, |i: int| (items[2 * i], items[2 * i + 1]))
}

/// The entries of a map leaf.
pub open(crate) spec fn map_leaf_view(m: W_MapObject) -> Seq<(Val, Val)>
    decreases m,
{
    match m.strategy {
        MapStrategy::Object => paired(refs_view(m.items.slots@), m.length as nat),
        MapStrategy::Record => hosted_map(m.storage),
    }
}

/// What a leaf is, as the runtime reads it.
pub open(crate) spec fn root_view(w: W_Root) -> Val
    decreases w,
{
    match w {
        W_Root::Int(o) => Val::Int(o.intval),
        W_Root::UInt(o) => Val::UInt(o.uintval),
        W_Root::Double(o) => Val::Double(o.floatval),
        W_Root::Bool(o) => Val::Bool(o.boolval != 0),
        W_Root::Duration(o) => Val::Duration(o.nanos as int),
        W_Root::Optional(o) => match o.w_value {
            None => Val::Optional(None),
            Some(inner) => Val::Optional(Some(Box::new(root_view(*inner)))),
        },
        W_Root::Null(_) => Val::Null,
        W_Root::Timestamp(o) => Val::Timestamp(
            Instant { nanos: o.nanos as int, leap: false, offset: o.off_s as int },
        ),
        W_Root::Bytes(o) => Val::Bytes(bytes_of(o.data)),
        W_Root::Str(o) => Val::Str(o.chars@),
        W_Root::IntColumn(_) => Val::Invalid(ReadError::Class),
        W_Root::List(l) => Val::List(list_leaf_view(l)),
        W_Root::CelMap(m) => Val::CelMap(map_leaf_view(m)),
        W_Root::Struct(s) => Val::Struct(
            s.name@,
            paired(refs_view(s.fields.slots@), s.length as nat),
        ),
        W_Root::Type(t) => Val::Type(class_type(t.cls)),
        W_Root::Frame(_) => Val::Invalid(ReadError::Class),
        W_Root::Opaque(o) => match o.host {
            Some(h) => host_view(h),
            None => Val::Invalid(ReadError::Opaque),
        },
    }
}

/// What reading back gives as a value: null where it gives none.
pub open spec fn read_or_null(r: Result<Val, ReadError>) -> Val {
    match r {
        Ok(v) => v,
        Err(_) => Val::Null,
    }
}

/// What `n` references from `start` on are read back as, in turn.
pub open(crate) spec fn read_refs(slots: Seq<CelRef>, start: int, n: nat) -> Result<
    Seq<Val>,
    ReadError,
>
    decreases slots, n,
{
    if n == 0 || start < 0 || start + n > slots.len() {
        Ok(Seq::empty())
    } else {
        match read_refs(slots, start, (n - 1) as nat) {
            Err(e) => Err(e),
            Ok(items) => match read_ref(slots[start + n - 1]) {
                Err(e) => Err(e),
                Ok(x) => Ok(items.push(x)),
            },
        }
    }
}

/// The name of a struct field.
pub open spec fn read_name(k: Val) -> Result<Val, ReadError> {
    if k is Str {
        Ok(k)
    } else {
        Err(ReadError::FieldName)
    }
}

/// A key of a map, from what it is read back as.
pub open spec fn read_key(k: Result<Val, ReadError>) -> Result<Val, ReadError> {
    match k {
        Err(e) => Err(e),
        Ok(x) => if is_key(x) {
            Ok(x)
        } else {
            Err(ReadError::MapKey)
        },
    }
}

/// What the first `n` pairs of references are read back as, and stored, in turn.
pub open(crate) spec fn read_pairs(slots: Seq<CelRef>, n: nat, named: bool) -> Result<
    Seq<(Val, Val)>,
    ReadError,
>
    decreases slots, n,
{
    if n == 0 || 2 * n > slots.len() {
        Ok(Seq::empty())
    } else {
        match read_pairs(slots, (n - 1) as nat, named) {
            Err(e) => Err(e),
            Ok(entries) => match if named {
                read_name(ref_view(slots[2 * n - 2]))
            } else {
                read_key(read_ref(slots[2 * n - 2]))
            } {
                Err(e) => Err(e),
                Ok(k) => match read_ref(slots[2 * n - 1]) {
                    Err(e) => Err(e),
                    Ok(x) => Ok(insert_entry(entries, k, x)),
                },
            },
        }
    }
}

/// The public value that a reference is read back as, or why it is none.
pub open(crate) spec fn read_ref(r: CelRef) -> Result<Val, ReadError>
    decreases r, 0nat,
{
    match r {
        Some(w) => read_root(*w),
        None => Err(ReadError::NullPointer),
    }
}

/// The type that a type leaf is read back as.
pub open spec fn read_class(c: CelClass) -> Result<Val, ReadError> {
    match class_type(c) {
        TypeV::Class(k) => if k == CelClass::Opaque {
            Ok(Val::Type(TypeV::Opaque("opaque"@)))
        } else {
            Err(ReadError::Type)
        },
        t => Ok(Val::Type(t)),
    }
}

/// The public value that a leaf is read back as, or why it is none.
///
/// A map is read back by storing its entries one after the other, and so is a
/// struct. An offset is read as 32 bits and must be less than a day.
pub open(crate) spec fn read_root(w: W_Root) -> Result<Val, ReadError>
    decreases w, 0nat,
{
    match w {
        W_Root::Optional(o) => match o.w_value {
            None => Ok(Val::Optional(None)),
            Some(inner) => match read_root(*inner) {
                Err(e) => Err(e),
                Ok(x) => Ok(Val::Optional(Some(Box::new(x)))),
            },
        },
        W_Root::Timestamp(o) => {
            let off = o.off_s as i32;
            if is_offset(off as int) {
                Ok(
                    Val::Timestamp(
                        Instant { nanos: o.nanos as int, leap: false, offset: off as int },
                    ),
                )
            } else {
                Err(ReadError::Timestamp)
            }
        },
        W_Root::List(l) => match l.strategy {
            ListStrategy::Object => match read_refs(
                l.items.slots@,
                l.start as int,
                l.length as nat,
            ) {
                Err(e) => Err(e),
                Ok(items) => Ok(Val::List(items)),
            },
            _ => Ok(Val::List(list_leaf_view(l))),
        },
        W_Root::CelMap(m) => match m.strategy {
            MapStrategy::Object => match read_pairs(m.items.slots@, m.length as nat, false) {
                Err(e) => Err(e),
                Ok(entries) => Ok(Val::CelMap(entries)),
            },
            MapStrategy::Record => Ok(Val::CelMap(hosted_map(m.storage))),
        },
        W_Root::Struct(s) => match read_pairs(s.fields.slots@, s.length as nat, true) {
            Err(e) => Err(e),
            Ok(entries) => Ok(Val::Struct(s.name@, entries)),
        },
        W_Root::Type(t) => read_class(t.cls),
        W_Root::IntColumn(_) | W_Root::Frame(_) => Err(ReadError::Class),
        W_Root::Opaque(o) => match o.host {
            Some(Host::List(_)) | Some(Host::CelMap(_)) | None => Err(ReadError::Opaque),
            Some(h) => Ok(host_view(h)),
        },
        W_Root::Int(o) => Ok(Val::Int(o.intval)),
        W_Root::UInt(o) => Ok(Val::UInt(o.uintval)),
        W_Root::Double(o) => Ok(Val::Double(o.floatval)),
        W_Root::Bool(o) => Ok(Val::Bool(o.boolval != 0)),
        W_Root::Duration(o) => Ok(Val::Duration(o.nanos as int)),
        W_Root::Null(_) => Ok(Val::Null),
        W_Root::Bytes(o) => Ok(Val::Bytes(bytes_of(o.data))),
        W_Root::Str(o) => Ok(Val::Str(o.chars@)),
    }
}

impl VableStack {
    /// How many cells there are.
    pub open(crate) spec fn cells(&self) -> nat {
        self.block.slots@.len()
    }

    /// How many cells there are.
    pub fn capacity(&self) -> (r: usize)
        ensures
            r == self.cells(),
    {
        self.block.slots.len()
    }
}

impl W_ListObject {
    /// The window lies within what it is a window over.
    #[verifier::type_invariant]
    pub(crate) open spec fn inv(self) -> bool {
        &&& self.start + self.length <= usize::MAX
        &&& match self.strategy {
            ListStrategy::Object => self.start == 0 && self.length <= self.items.slots@.len(),
            ListStrategy::Ints => {
                &&& self.storage matches Some(w) && *w is IntColumn
                &&& self.start + self.length <= column_ints(self.storage).len()
            },
            ListStrategy::Window => self.start + self.length <= hosted_list(self.storage).len(),
        }
    }
}

impl W_MapObject {
    /// Every entry has its two references.
    #[verifier::type_invariant]
    pub(crate) open spec fn inv(self) -> bool {
        match self.strategy {
            MapStrategy::Object => 2 * self.length <= self.items.slots@.len(),
            MapStrategy::Record => self.length == hosted_map(self.storage).len(),
        }
    }
}

impl W_StructObject {
    /// Every field has its two references.
    #[verifier::type_invariant]
    pub(crate) open spec fn inv(self) -> bool {
        2 * self.length <= self.fields.slots@.len()
    }
}

impl Clone for Host {
    /// What is hosted is shared, not copied.
    fn clone(&self) -> (r: Host)
        ensures
            r == *self,
    {
        match self {
            Host::Object(o) => Host::Object(
                HostObject { runtime_type: o.runtime_type.clone(), token: o.token },
            ),
            Host::OpaqueType(n) => Host::OpaqueType(n.clone()),
            Host::StructType(n) => Host::StructType(n.clone()),
            Host::List(l) => Host::List(l.clone()),
            Host::CelMap(m) => Host::CelMap(m.clone()),
        }
    }
}

/// Whether two references are to one object.
pub fn same_object(a: &CelRef, b: &CelRef) -> (r: bool)
    ensures
        r == match (*a, *b) {
            (None, None) => true,
            (Some(x), Some(y)) => place_of(*x) == place_of(*y),
            _ => false,
        },
{
    match (a, b) {
        (None, None) => true,
        (Some(x), Some(y)) => w_place(x) == w_place(y),
        _ => false,
    }
}

// ---------------------------------------------------------------------------
// Prebuilt values.

/// The least prebuilt `int`.
pub const PREBUILT_INT_FROM: i64 = -5;

/// One more than the greatest prebuilt `int`.
pub const PREBUILT_INT_TO: i64 = 257;

/// Whether an `int` is prebuilt.
pub open spec fn is_prebuilt(i: i64) -> bool {
    PREBUILT_INT_FROM <= i < PREBUILT_INT_TO
}

/// The number of a prebuilt `int`. The booleans and null come before them.
pub open spec fn prebuilt_number(i: i64) -> int {
    i - PREBUILT_INT_FROM + 3
}

/// The `bool` leaf: one of two prebuilt ones.
pub fn new_bool(value: bool) -> (r: CelRef)
    ensures
        r matches Some(w) && root_view(*w) == Val::Bool(value) && *w == W_Root::Bool(
            W_BoolObject {
                ob_header: CelObject {
                    at: Place::Immortal(
                        if value {
                            0
                        } else {
                            1
                        },
                    ),
                },
                boolval: if value {
                    1
                } else {
                    0
                },
            },
        ),
{
    let leaf = if value {
        W_BoolObject { ob_header: malloc_typed_immortal(0), boolval: 1 }
    } else {
        W_BoolObject { ob_header: malloc_typed_immortal(1), boolval: 0 }
    };
    Some(Arc::new(W_Root::Bool(leaf)))
}

/// Whether a reference is to the prebuilt leaf of a boolean.
pub open(crate) spec fn is_bool_leaf(r: CelRef, value: bool) -> bool {
    r matches Some(w) && root_view(*w) == Val::Bool(value) && place_of(*w) == Place::Immortal(
        if value {
            0
        } else {
            1
        },
    )
}

/// The `null` leaf, of which there is one.
pub fn new_null() -> (r: CelRef)
    ensures
        r matches Some(w) && root_view(*w) == Val::Null && *w == W_Root::Null(
            W_NullObject { ob_header: CelObject { at: Place::Immortal(2) } },
        ),
{
    Some(Arc::new(W_Root::Null(W_NullObject { ob_header: malloc_typed_immortal(2) })))
}

// ---------------------------------------------------------------------------
// Scalars.

/// What the constructors of leaves of one part promise: the heap grew by the leaf,
/// and the leaf is alive in it.
pub open(crate) spec fn minted(before: &CelHeap, after: &CelHeap, size: int, w: W_Root) -> bool {
    &&& after.grown_from(before)
    &&& allocated_in(before, after, size, 8, place_of(w))
    &&& after.live(place_of(w))
}

/// What the constructors of leaves with a block of their own promise: the heap grew by
/// the block, and then by the leaf.
pub open(crate) spec fn minted_with_block(
    before: &CelHeap,
    after: &CelHeap,
    block: int,
    size: int,
    w: W_Root,
) -> bool {
    exists|mid: CelHeap| #[trigger] reserved(before, &mid, block) && minted(&mid, after, size, w)
}

/// What the constructor of int columns promises: the heap grew by the words, if there
/// are any, and then by the leaf.
pub open(crate) spec fn minted_column(before: &CelHeap, after: &CelHeap, n: int, w: W_Root) -> bool {
    if n == 0 {
        minted(before, after, 24, w)
    } else {
        minted_with_block(before, after, block_bytes(8, 8, n), 24, w)
    }
}

/// What the constructor of unboxed lists promises: the heap grew by the column, and
/// then by the leaf.
pub open(crate) spec fn minted_over_column(
    before: &CelHeap,
    after: &CelHeap,
    n: int,
    w: W_Root,
) -> bool {
    exists|mid: CelHeap, column: W_Root| #[trigger]
        minted_column(before, &mid, n, column) && minted(&mid, after, 64, w)
}

/// A leaf that was made last, in the space that the heap allocates in.
pub open(crate) spec fn made_last(before: &CelHeap, after: &CelHeap, w: W_Root) -> bool {
    exists|mid: CelHeap, size: int|
        mid.grown_from(before) && #[trigger] minted(&mid, after, size, w)
}

/// Where the runtime puts what it makes: a boolean, null or a small integer is the
/// prebuilt leaf, and the heap is as it was; any other leaf is made in the heap.
pub open(crate) spec fn made(before: &CelHeap, after: &CelHeap, w: W_Root) -> bool {
    match root_view(w) {
        Val::Bool(b) => *after == *before && place_of(w) == Place::Immortal(
            if b {
                0
            } else {
                1
            },
        ),
        Val::Null => *after == *before && place_of(w) == Place::Immortal(2),
        Val::Int(i) => if is_prebuilt(i) {
            *after == *before && place_of(w) == Place::Immortal(prebuilt_number(i) as u32)
        } else {
            made_last(before, after, w)
        },
        _ => made_last(before, after, w),
    }
}

/// Whether interning copies a leaf: it is alive in the nursery that leaves are copied
/// out of.
pub open(crate) spec fn is_copied(w: W_Root, nursery: Option<Space>) -> bool {
    match (nursery, place_of(w)) {
        (Some(n), Place::Young(s, o)) => n.holds(s as int, o as int),
        _ => false,
    }
}

/// A fresh `int` leaf.
pub fn new_int_raw(heap: &mut CelHeap, value: i64) -> (r: CelRef)
    requires
        old(heap).wf(),
    ensures
        r matches Some(w) && *w matches W_Root::Int(o) && o.intval == value && minted(
            old(heap),
            final(heap),
            16,
            *w,
        ),
{
    let ob_header = malloc_typed(heap, 16);
    Some(Arc::new(W_Root::Int(W_IntObject { ob_header, intval: value })))
}

/// An `int` leaf: the prebuilt one if there is one, else a fresh one.
pub fn new_int_in(heap: &mut CelHeap, value: i64) -> (r: CelRef)
    requires
        old(heap).wf(),
    ensures
        r matches Some(w) && *w matches W_Root::Int(o) && o.intval == value && if is_prebuilt(
            value,
        ) {
            *final(heap) == *old(heap) && o.ob_header.at == Place::Immortal(
                prebuilt_number(value) as u32,
            )
        } else {
            minted(old(heap), final(heap), 16, *w)
        },
        final(heap).grown_from(old(heap)),
        ref_view(r) == Val::Int(value),
{
    if PREBUILT_INT_FROM <= value && value < PREBUILT_INT_TO {
        let ob_header = malloc_typed_immortal((value - PREBUILT_INT_FROM + 3) as u32);
        return Some(Arc::new(W_Root::Int(W_IntObject { ob_header, intval: value })));
    }
    new_int_raw(heap, value)
}

/// An `int` leaf.
pub fn new_int(heap: &mut CelHeap, value: i64) -> (r: CelRef)
    requires
        old(heap).wf(),
    ensures
        r matches Some(w) && *w matches W_Root::Int(o) && o.intval == value && if is_prebuilt(
            value,
        ) {
            *final(heap) == *old(heap) && o.ob_header.at == Place::Immortal(
                prebuilt_number(value) as u32,
            )
        } else {
            minted(old(heap), final(heap), 16, *w)
        },
        final(heap).grown_from(old(heap)),
        ref_view(r) == Val::Int(value),
{
    new_int_in(heap, value)
}

/// A `uint` leaf.
pub fn new_uint_in(heap: &mut CelHeap, value: u64) -> (r: CelRef)
    requires
        old(heap).wf(),
    ensures
        r matches Some(w) && *w matches W_Root::UInt(o) && o.uintval == value && minted(
            old(heap),
            final(heap),
            16,
            *w,
        ),
        ref_view(r) == Val::UInt(value),
{
    let ob_header = malloc_typed(heap, 16);
    Some(Arc::new(W_Root::UInt(W_UIntObject { ob_header, uintval: value })))
}

/// A `uint` leaf.
pub fn new_uint(heap: &mut CelHeap, value: u64) -> (r: CelRef)
    requires
        old(heap).wf(),
    ensures
        r matches Some(w) && *w matches W_Root::UInt(o) && o.uintval == value && minted(
            old(heap),
            final(heap),
            16,
            *w,
        ),
        ref_view(r) == Val::UInt(value),
{
    new_uint_in(heap, value)
}

/// A `double` leaf, from the bits.
pub fn new_double_in(heap: &mut CelHeap, bits: u64) -> (r: CelRef)
    requires
        old(heap).wf(),
    ensures
        r matches Some(w) && *w matches W_Root::Double(o) && o.floatval == bits && minted(
            old(heap),
            final(heap),
            16,
            *w,
        ),
        ref_view(r) == Val::Double(bits),
{
    let ob_header = malloc_typed(heap, 16);
    Some(Arc::new(W_Root::Double(W_DoubleObject { ob_header, floatval: bits })))
}

/// A `double` leaf, from the bits.
pub fn new_double(heap: &mut CelHeap, bits: u64) -> (r: CelRef)
    requires
        old(heap).wf(),
    ensures
        r matches Some(w) && *w matches W_Root::Double(o) && o.floatval == bits && minted(
            old(heap),
            final(heap),
            16,
            *w,
        ),
        ref_view(r) == Val::Double(bits),
{
    new_double_in(heap, bits)
}

/// A `duration` leaf.
pub fn new_duration(heap: &mut CelHeap, nanos: i64) -> (r: CelRef)
    requires
        old(heap).wf(),
    ensures
        r matches Some(w) && *w matches W_Root::Duration(o) && o.nanos == nanos && minted(
            old(heap),
            final(heap),
            16,
            *w,
        ),
        ref_view(r) == Val::Duration(nanos as int),
{
    let ob_header = malloc_typed(heap, 16);
    Some(Arc::new(W_Root::Duration(W_DurationObject { ob_header, nanos })))
}

/// A `timestamp` leaf.
pub fn new_timestamp(heap: &mut CelHeap, nanos: i64, off_s: i64) -> (r: CelRef)
    requires
        old(heap).wf(),
    ensures
        r matches Some(w) && *w matches W_Root::Timestamp(o) && o.nanos == nanos && o.off_s == off_s
            && minted(old(heap), final(heap), 24, *w),
        ref_view(r) == Val::Timestamp(
            Instant { nanos: nanos as int, leap: false, offset: off_s as int },
        ),
{
    let ob_header = malloc_typed(heap, 24);
    Some(Arc::new(W_Root::Timestamp(W_TimestampObject { ob_header, nanos, off_s })))
}

/// An `optional` leaf that holds `value`.
pub fn new_optional(heap: &mut CelHeap, value: Arc<W_Root>) -> (r: CelRef)
    requires
        old(heap).wf(),
    ensures
        r matches Some(w) && *w matches W_Root::Optional(o) && o.w_value == Some(value) && minted(
            old(heap),
            final(heap),
            16,
            *w,
        ),
        ref_view(r) == Val::Optional(Some(Box::new(root_view(*value)))),
{
    let ob_header = malloc_typed(heap, 16);
    Some(Arc::new(W_Root::Optional(W_OptionalObject { ob_header, w_value: Some(value) })))
}

/// An `optional` leaf that holds nothing.
pub fn new_optional_none(heap: &mut CelHeap) -> (r: CelRef)
    requires
        old(heap).wf(),
    ensures
        r matches Some(w) && *w matches W_Root::Optional(o) && o.w_value is None && minted(
            old(heap),
            final(heap),
            16,
            *w,
        ),
        ref_view(r) == Val::Optional(None),
{
    let ob_header = malloc_typed(heap, 16);
    Some(Arc::new(W_Root::Optional(W_OptionalObject { ob_header, w_value: None })))
}

/// The type value that denotes a class.
pub fn new_type(heap: &mut CelHeap, cls: CelClass) -> (r: CelRef)
    requires
        old(heap).wf(),
    ensures
        r matches Some(w) && *w matches W_Root::Type(o) && o.cls == cls && minted(
            old(heap),
            final(heap),
            16,
            *w,
        ),
        ref_view(r) == Val::Type(class_type(cls)),
{
    let ob_header = malloc_typed(heap, 16);
    Some(Arc::new(W_Root::Type(W_TypeObject { ob_header, cls })))
}

/// The leaf of the host in a slot.
pub fn new_opaque(heap: &mut CelHeap, w_type: CelRef, host_index: HostIndex) -> (r: CelRef)
    requires
        old(heap).wf(),
    ensures
        r matches Some(w) && *w matches W_Root::Opaque(o) && o.w_type == w_type && o.host_index
            == host_index && o.host == old(heap).hosted(host_index) && minted(
            old(heap),
            final(heap),
            24,
            *w,
        ),
{
    let host = match heap.host(host_index) {
        Some(h) => Some(h.clone()),
        None => None,
    };
    let ob_header = malloc_typed(heap, 24);
    Some(Arc::new(W_Root::Opaque(W_OpaqueObject { ob_header, w_type, host_index, host })))
}

// ---------------------------------------------------------------------------
// Strings and bytes.

/// A `bytes` leaf.
pub fn new_bytes(heap: &mut CelHeap, bytes: &Arc<Vec<u8>>) -> (r: CelRef)
    requires
        old(heap).wf(),
    ensures
        final(heap).grown_from(old(heap)),
        r matches Some(w) && *w is Bytes && minted_with_block(
            old(heap),
            final(heap),
            block_bytes(8, 1, bytes@.len() as int),
            32,
            *w,
        ),
        ref_view(r) == Val::Bytes(bytes@),
{
    let data = new_bytes_block(heap, bytes);
    let ob_header = malloc_typed(heap, 32);
    Some(Arc::new(W_Root::Bytes(W_BytesObject { ob_header, data })))
}

/// A `string` leaf.
pub fn new_string(heap: &mut CelHeap, s: &Arc<String>) -> (r: CelRef)
    requires
        old(heap).wf(),
    ensures
        final(heap).grown_from(old(heap)),
        r matches Some(w) && *w is Str && minted_with_block(
            old(heap),
            final(heap),
            block_bytes(8, 1, encode_utf8(s@).len() as int),
            32,
            *w,
        ),
        ref_view(r) == Val::Str(s@),
{
    reserve_bytes(heap, s.as_str().as_bytes().len());
    let ob_header = malloc_typed(heap, 32);
    Some(Arc::new(W_Root::Str(W_StringObject { ob_header, chars: s.clone() })))
}

/// The bytes of a string leaf's UTF-8.
pub fn string_byte_len(w: &W_StringObject) -> (r: i64)
    ensures
        r == encode_utf8(w.chars@).len() as i64,
{
    let bytes = w.chars.as_str().as_bytes();
    #[verifier::truncate]
    (bytes.len() as i64)
}

/// The characters of a leaf, if it is a string.
pub fn string_as_str(w: &W_Root) -> (r: Option<&str>)
    ensures
        match r {
            Some(s) => root_view(*w) == Val::Str(s@),
            None => !(root_view(*w) is Str),
        },
{
    match w {
        W_Root::Str(o) => Some(o.chars.as_str()),
        _ => None,
    }
}

/// The length of a bytes leaf.
pub fn bytes_len(w: &W_BytesObject) -> (r: i64)
    ensures
        r == root_view(W_Root::Bytes(*w))->Bytes_0.len() as i64,
{
    let n: usize = bytes_capacity(&w.data);
    #[verifier::truncate]
    (n as i64)
}

impl W_BytesObject {
    /// The bytes of the leaf.
    pub open(crate) spec fn payload(&self) -> Seq<u8> {
        bytes_of(self.data)
    }
}

/// The bytes of a bytes leaf.
pub fn bytes_payload(w: &W_BytesObject) -> (r: &Vec<u8>)
    ensures
        r@ == w.payload(),
        root_view(W_Root::Bytes(*w)) == Val::Bytes(r@),
{
    bytes_base(&w.data)
}

// ---------------------------------------------------------------------------
// Lists.

/// A column of integers.
pub fn new_int_column(heap: &mut CelHeap, values: Vec<i64>) -> (r: CelRef)
    requires
        old(heap).wf(),
    ensures
        final(heap).grown_from(old(heap)),
        r matches Some(w) && *w is IntColumn && minted_column(
            old(heap),
            final(heap),
            values@.len() as int,
            *w,
        ),
        column_ints(r) == values@,
{
    if values.len() != 0 {
        reserve_words(heap, values.len());
    }
    let ob_header = malloc_typed(heap, 24);
    Some(Arc::new(W_Root::IntColumn(W_IntColumn { ob_header, data: values })))
}

/// The room that is asked for: none where the number is negative.
pub open spec fn room_for(cap: i64) -> int {
    if cap > 0 {
        cap as int
    } else {
        0
    }
}

/// A list leaf without elements, with room for `cap`.
pub fn new_list_with_capacity_in(heap: &mut CelHeap, cap: i64) -> (r: W_ListObject)
    requires
        old(heap).wf(),
        cap <= usize::MAX,
    ensures
        final(heap).grown_from(old(heap)),
        minted_with_block(
            old(heap),
            final(heap),
            block_bytes(8, 8, room_for(cap)),
            64,
            W_Root::List(r),
        ),
        r.slots_of().len() == room_for(cap),
        forall|i: int| 0 <= i < r.slots_of().len() ==> (#[trigger] r.slots_of()[i]) is None,
        root_view(W_Root::List(r)) == Val::List(Seq::empty()),
        list_room(r) == room_for(cap),
{
    let n: usize = if cap > 0 {
        cap as usize
    } else {
        0
    };
    let items = new_items_block_zeroed(heap, n);
    let ob_header = malloc_typed(heap, 64);
    let r = W_ListObject {
        ob_header,
        strategy: ListStrategy::Object,
        storage: None,
        items,
        start: 0,
        length: 0,
    };
    assert(list_leaf_view(r) =~= Seq::<Val>::empty());
    r
}

/// A list leaf without elements, with room for `cap`.
pub fn new_list_with_capacity(heap: &mut CelHeap, cap: i64) -> (r: W_ListObject)
    requires
        old(heap).wf(),
        cap <= usize::MAX,
    ensures
        final(heap).grown_from(old(heap)),
        minted_with_block(
            old(heap),
            final(heap),
            block_bytes(8, 8, room_for(cap)),
            64,
            W_Root::List(r),
        ),
        r.slots_of().len() == room_for(cap),
        forall|i: int| 0 <= i < r.slots_of().len() ==> (#[trigger] r.slots_of()[i]) is None,
        root_view(W_Root::List(r)) == Val::List(Seq::empty()),
        list_room(r) == room_for(cap),
{
    new_list_with_capacity_in(heap, cap)
}

/// How many elements can be appended to a list leaf.
pub open(crate) spec fn list_room(l: W_ListObject) -> int {
    match l.strategy {
        ListStrategy::Object => l.items.slots@.len() - l.length,
        _ => 0,
    }
}

/// Append an element to a list leaf that is being filled, if it has room.
pub fn list_try_append(leaf: W_ListObject, item: CelRef) -> (r: (W_ListObject, bool))
    ensures
        r.1 == (list_room(leaf) > 0),
        r.1 ==> list_room(r.0) == list_room(leaf) - 1 && root_view(W_Root::List(r.0)) == Val::List(
            root_view(W_Root::List(leaf))->List_0.push(ref_view(item)),
        ),
        !r.1 ==> r.0 == leaf,
{
    proof {
        use_type_invariant(&leaf);
    }
    match leaf.strategy {
        ListStrategy::Object => {
            if leaf.length >= leaf.items.slots.len() {
                return (leaf, false);
            }
            let n: usize = leaf.length;
            let ghost before = list_leaf_view(leaf);
            let mut slots = leaf.items.slots;
            slots[n] = item;
            let out = W_ListObject {
                ob_header: leaf.ob_header,
                strategy: ListStrategy::Object,
                storage: leaf.storage,
                items: CelItemsBlock { slots },
                start: 0,
                length: n + 1,
            };
            assert(list_leaf_view(out) =~= before.push(ref_view(item)));
            (out, true)
        },
        _ => (leaf, false),
    }
}

/// A reference to a list leaf that is filled.
pub fn seal_list(leaf: W_ListObject) -> (r: CelRef)
    ensures
        r matches Some(w) && *w == W_Root::List(leaf),
{
    Some(Arc::new(W_Root::List(leaf)))
}

/// A list leaf that holds `values`.
pub fn new_list(heap: &mut CelHeap, values: &Vec<CelRef>) -> (r: CelRef)
    requires
        old(heap).wf(),
    ensures
        final(heap).grown_from(old(heap)),
        r matches Some(w) && *w is List && minted_with_block(
            old(heap),
            final(heap),
            block_bytes(8, 8, values@.len() as int),
            64,
            *w,
        ),
        ref_view(r) == Val::List(refs_view(values@)),
        r matches Some(w) && *w matches W_Root::List(l) && l.strategy_of() == ListStrategy::Object
            && l.slots_of() == values@ && l.len_of() == values@.len(),
        read_ref(r) == match read_refs(values@, 0, values@.len()) {
            Ok(items) => Ok::<Val, ReadError>(Val::List(items)),
            Err(e) => Err(e),
        },
{
    let items = new_items_block(heap, values);
    let ob_header = malloc_typed(heap, 64);
    let leaf = W_ListObject {
        ob_header,
        strategy: ListStrategy::Object,
        storage: None,
        items,
        start: 0,
        length: values.len(),
    };
    assert(list_leaf_view(leaf) =~= refs_view(values@));
    Some(Arc::new(W_Root::List(leaf)))
}

/// A list leaf of integers, unboxed.
pub fn new_list_ints(heap: &mut CelHeap, values: Vec<i64>) -> (r: CelRef)
    requires
        old(heap).wf(),
    ensures
        final(heap).grown_from(old(heap)),
        r matches Some(w) && *w is List && minted_over_column(
            old(heap),
            final(heap),
            values@.len() as int,
            *w,
        ),
        ref_view(r) == Val::List(ints_view(values@)),
        r matches Some(w) && *w matches W_Root::List(l) && l.strategy_of() == ListStrategy::Ints,
{
    let length: usize = values.len();
    let storage = new_int_column(heap, values);
    let ob_header = malloc_typed(heap, 64);
    let leaf = W_ListObject {
        ob_header,
        strategy: ListStrategy::Ints,
        storage,
        items: CelItemsBlock { slots: Vec::new() },
        start: 0,
        length,
    };
    assert(list_leaf_view(leaf) =~= ints_view(values@));
    Some(Arc::new(W_Root::List(leaf)))
}

/// A list leaf over elements `start..start + length` of a hosted list.
pub fn new_list_window(heap: &mut CelHeap, storage: CelRef, start: usize, length: usize) -> (r:
    CelRef)
    requires
        old(heap).wf(),
        start + length <= usize::MAX,
        start + length <= hosted_list(storage).len(),
    ensures
        final(heap).grown_from(old(heap)),
        r matches Some(w) && *w is List && minted(old(heap), final(heap), 64, *w),
        ref_view(r) == Val::List(hosted_list(storage).subrange(start as int, start + length)),
        r matches Some(w) && *w matches W_Root::List(l) && l.strategy_of() == ListStrategy::Window,
{
    let ob_header = malloc_typed(heap, 64);
    let leaf = W_ListObject {
        ob_header,
        strategy: ListStrategy::Window,
        storage,
        items: CelItemsBlock { slots: Vec::new() },
        start,
        length,
    };
    Some(Arc::new(W_Root::List(leaf)))
}

impl W_ListObject {
    /// How the leaf holds its elements.
    pub open(crate) spec fn strategy_of(&self) -> ListStrategy {
        self.strategy
    }

    /// The references of the items block.
    pub open(crate) spec fn slots_of(&self) -> Seq<CelRef> {
        self.items.slots@
    }

    /// The number of elements.
    pub open(crate) spec fn len_of(&self) -> int {
        self.length as int
    }

    /// How the leaf holds its elements.
    pub fn strategy(&self) -> (r: ListStrategy)
        ensures
            r == self.strategy_of(),
    {
        self.strategy
    }
}

/// The number of elements of a list leaf.
pub fn list_len(l: &W_ListObject) -> (r: usize)
    ensures
        r == list_leaf_view(*l).len(),
        r == l.len_of(),
{
    proof {
        use_type_invariant(l);
    }
    l.length
}

/// The integer at `index` of a list leaf whose integers are unboxed.
pub fn list_int_at(l: &W_ListObject, index: i64) -> (r: Option<i64>)
    ensures
        match r {
            Some(v) => l.strategy_of() == ListStrategy::Ints && 0 <= index < l.len_of()
                && list_leaf_view(*l)[index as int] == Val::Int(v),
            None => l.strategy_of() != ListStrategy::Ints || index < 0 || index >= l.len_of(),
        },
{
    proof {
        use_type_invariant(l);
    }
    match l.strategy {
        ListStrategy::Ints => {},
        _ => {
            return None;
        },
    }
    if index < 0 || index as u64 >= l.length as u64 {
        return None;
    }
    let at: usize = l.start + index as usize;
    if let Some(w) = &l.storage {
        if let W_Root::IntColumn(c) = &**w {
            return Some(c.data[at]);
        }
    }
    None
}

/// Element `index` of a list leaf that holds references or unboxed integers. An
/// integer is boxed on the way out. A window's elements are read elsewhere.
pub fn list_get(heap: &mut CelHeap, l: &W_ListObject, index: i64) -> (r: Option<CelRef>)
    requires
        old(heap).wf(),
    ensures
        final(heap).grown_from(old(heap)),
        match r {
            Some(x) => {
                &&& l.strategy_of() != ListStrategy::Window
                &&& 0 <= index < l.len_of()
                &&& ref_view(x) == list_leaf_view(*l)[index as int]
                &&& l.strategy_of() == ListStrategy::Object ==> x == l.slots_of()[index as int]
                    && *final(heap) == *old(heap)
                &&& l.strategy_of() == ListStrategy::Ints ==> (x matches Some(w) && made(
                    old(heap),
                    final(heap),
                    *w,
                ))
            },
            None => *final(heap) == *old(heap) && (l.strategy_of() == ListStrategy::Window || index
                < 0 || index >= l.len_of()),
        },
{
    proof {
        use_type_invariant(l);
    }
    if index < 0 || index as u64 >= l.length as u64 {
        return None;
    }
    match l.strategy {
        ListStrategy::Object => Some(clone_ref(&l.items.slots[index as usize])),
        ListStrategy::Ints => match list_int_at(l, index) {
            Some(v) => Some(new_int(heap, v)),
            None => None,
        },
        ListStrategy::Window => None,
    }
}

/// The integers of a leaf, if it is a list whose integers are unboxed.
pub fn list_ints_slice(w: &W_Root) -> (r: Option<&[i64]>)
    ensures
        match r {
            Some(ints) => root_view(*w) == Val::List(ints_view(ints@)) && (*w matches W_Root::List(l)
                && l.strategy_of() == ListStrategy::Ints),
            None => !(*w matches W_Root::List(l) && l.strategy_of() == ListStrategy::Ints),
        },
{
    match w {
        W_Root::List(l) => {
            proof {
                use_type_invariant(l);
            }
            match l.strategy {
                ListStrategy::Ints => {},
                _ => {
                    return None;
                },
            }
            if let Some(s) = &l.storage {
                if let W_Root::IntColumn(c) = &**s {
                    let ints = vstd::slice::slice_subrange(
                        c.data.as_slice(),
                        l.start,
                        l.start + l.length,
                    );
                    assert(list_leaf_view(*l) =~= ints_view(ints@));
                    return Some(ints);
                }
            }
            None
        },
        _ => None,
    }
}

// ---------------------------------------------------------------------------
// Maps and structs.

/// What stands at `i` when pairs stand one after the other.
pub open spec fn flat_at(pairs: Seq<(CelRef, CelRef)>, i: int) -> CelRef {
    if i % 2 == 0 {
        pairs[i / 2].0
    } else {
        pairs[i / 2].1
    }
}

/// Pairs of references, one after the other.
pub open spec fn flattened(pairs: Seq<(CelRef, CelRef)>) -> Seq<CelRef> {
    Seq::new(2 * pairs.len(), |i: int| flat_at(pairs, i))
}

/// The entries that pairs of references are.
pub open(crate) spec fn ref_pairs_view(pairs: Seq<(CelRef, CelRef)>) -> Seq<(Val, Val)> {
    Seq::new(pairs.len(), |i: int| (ref_view(pairs[i].0), ref_view(pairs[i].1)))
}

/// A block of keys and values, in turn.
fn interleaved_pair_block(heap: &mut CelHeap, pairs: &Vec<(CelRef, CelRef)>) -> (r: CelItemsBlock)
    requires
        old(heap).wf(),
    ensures
        final(heap).grown_from(old(heap)),
        reserved(old(heap), final(heap), block_bytes(8, 8, 2 * pairs@.len() as int)),
        r.slots@ == flattened(pairs@),
        paired(refs_view(r.slots@), pairs@.len()) == ref_pairs_view(pairs@),
        2 * pairs@.len() == r.slots@.len(),
        r.slots@.len() <= usize::MAX,
{
    let mut items: Vec<CelRef> = Vec::new();
    let n: usize = pairs.len();
    let mut i: usize = 0;
    while i < n
        invariant
            i <= n,
            n == pairs@.len(),
            items@.len() == 2 * i,
            forall|j: int| 0 <= j < items@.len() ==> #[trigger] items@[j] == flat_at(pairs@, j),
        decreases n - i,
    {
        items.push(clone_ref(&pairs[i].0));
        items.push(clone_ref(&pairs[i].1));
        i = i + 1;
    }
    assert(items@ =~= flattened(pairs@));
    let len: usize = items.len();
    let block = new_items_block(heap, &items);
    let ghost whole = paired(refs_view(block.slots@), pairs@.len());
    assert forall|j: int| 0 <= j < pairs@.len() implies whole[j] == ref_pairs_view(pairs@)[j] by {
        assert(block.slots@[2 * j] == flat_at(pairs@, 2 * j));
        assert(block.slots@[2 * j + 1] == flat_at(pairs@, 2 * j + 1));
        assert(refs_view(block.slots@)[2 * j] == ref_view(block.slots@[2 * j]));
        assert(refs_view(block.slots@)[2 * j + 1] == ref_view(block.slots@[2 * j + 1]));
    }
    assert(whole =~= ref_pairs_view(pairs@));
    block
}

/// A map leaf of these entries.
pub fn new_map(heap: &mut CelHeap, pairs: &Vec<(CelRef, CelRef)>) -> (r: CelRef)
    requires
        old(heap).wf(),
    ensures
        final(heap).grown_from(old(heap)),
        r matches Some(w) && *w is CelMap && minted_with_block(
            old(heap),
            final(heap),
            block_bytes(8, 8, 2 * pairs@.len() as int),
            48,
            *w,
        ),
        ref_view(r) == Val::CelMap(ref_pairs_view(pairs@)),
        r matches Some(w) && *w matches W_Root::CelMap(m) && m.strategy_of() == MapStrategy::Object
            && m.slots_of() == flattened(pairs@) && m.len_of() == pairs@.len(),
{
    let items = interleaved_pair_block(heap, pairs);
    let ob_header = malloc_typed(heap, 48);
    let leaf = W_MapObject {
        ob_header,
        strategy: MapStrategy::Object,
        storage: None,
        items,
        length: pairs.len(),
    };
    Some(Arc::new(W_Root::CelMap(leaf)))
}

/// A map leaf without entries, with room for `cap`.
pub fn new_map_with_capacity_in(heap: &mut CelHeap, cap: i64) -> (r: W_MapObject)
    requires
        old(heap).wf(),
        2 * cap <= usize::MAX,
    ensures
        final(heap).grown_from(old(heap)),
        minted_with_block(
            old(heap),
            final(heap),
            block_bytes(8, 8, 2 * room_for(cap)),
            48,
            W_Root::CelMap(r),
        ),
        r.slots_of().len() == 2 * room_for(cap),
        forall|i: int| 0 <= i < r.slots_of().len() ==> (#[trigger] r.slots_of()[i]) is None,
        root_view(W_Root::CelMap(r)) == Val::CelMap(Seq::empty()),
        map_room(r) == room_for(cap),
{
    let n: usize = if cap > 0 {
        cap as usize
    } else {
        0
    };
    let items = new_items_block_zeroed(heap, 2 * n);
    let ob_header = malloc_typed(heap, 48);
    let r = W_MapObject {
        ob_header,
        strategy: MapStrategy::Object,
        storage: None,
        items,
        length: 0,
    };
    assert(map_leaf_view(r) =~= Seq::<(Val, Val)>::empty());
    r
}

/// A map leaf without entries, with room for `cap`.
pub fn new_map_with_capacity(heap: &mut CelHeap, cap: i64) -> (r: W_MapObject)
    requires
        old(heap).wf(),
        2 * cap <= usize::MAX,
    ensures
        final(heap).grown_from(old(heap)),
        minted_with_block(
            old(heap),
            final(heap),
            block_bytes(8, 8, 2 * room_for(cap)),
            48,
            W_Root::CelMap(r),
        ),
        r.slots_of().len() == 2 * room_for(cap),
        forall|i: int| 0 <= i < r.slots_of().len() ==> (#[trigger] r.slots_of()[i]) is None,
        root_view(W_Root::CelMap(r)) == Val::CelMap(Seq::empty()),
        map_room(r) == room_for(cap),
{
    new_map_with_capacity_in(heap, cap)
}

/// How many entries can be appended to a map leaf.
pub open(crate) spec fn map_room(m: W_MapObject) -> int {
    match m.strategy {
        MapStrategy::Object => m.items.slots@.len() / 2 - m.length,
        MapStrategy::Record => 0,
    }
}

/// Append an entry to a map leaf that is being filled, if it has room.
pub fn map_try_insert(leaf: W_MapObject, key: CelRef, value: CelRef) -> (r: (W_MapObject, bool))
    ensures
        r.1 == (map_room(leaf) > 0),
        r.1 ==> map_room(r.0) == map_room(leaf) - 1 && root_view(W_Root::CelMap(r.0)) == Val::CelMap(
            root_view(W_Root::CelMap(leaf))->CelMap_0.push((ref_view(key), ref_view(value))),
        ),
        !r.1 ==> r.0 == leaf,
{
    proof {
        use_type_invariant(&leaf);
    }
    match leaf.strategy {
        MapStrategy::Object => {
            let cap: usize = leaf.items.slots.len();
            if leaf.length >= cap / 2 {
                return (leaf, false);
            }
            let n: usize = leaf.length;
            let ghost before = map_leaf_view(leaf);
            let mut slots = leaf.items.slots;
            slots[2 * n] = key;
            slots[2 * n + 1] = value;
            let out = W_MapObject {
                ob_header: leaf.ob_header,
                strategy: MapStrategy::Object,
                storage: leaf.storage,
                items: CelItemsBlock { slots },
                length: n + 1,
            };
            assert(map_leaf_view(out) =~= before.push((ref_view(key), ref_view(value))));
            (out, true)
        },
        MapStrategy::Record => (leaf, false),
    }
}

/// A reference to a map leaf that is filled.
pub fn seal_map(leaf: W_MapObject) -> (r: CelRef)
    ensures
        r matches Some(w) && *w == W_Root::CelMap(leaf),
{
    Some(Arc::new(W_Root::CelMap(leaf)))
}

/// A map leaf over a hosted record row of `length` entries.
pub fn new_map_record(heap: &mut CelHeap, storage: CelRef, length: usize) -> (r: CelRef)
    requires
        old(heap).wf(),
        length == hosted_map(storage).len(),
    ensures
        final(heap).grown_from(old(heap)),
        r matches Some(w) && *w is CelMap && minted(old(heap), final(heap), 48, *w),
        ref_view(r) == Val::CelMap(hosted_map(storage)),
        r matches Some(w) && *w matches W_Root::CelMap(m) && m.strategy_of() == MapStrategy::Record
            && m.host_of() == storage,
{
    let ob_header = malloc_typed(heap, 48);
    let leaf = W_MapObject {
        ob_header,
        strategy: MapStrategy::Record,
        storage,
        items: CelItemsBlock { slots: Vec::new() },
        length,
    };
    Some(Arc::new(W_Root::CelMap(leaf)))
}

impl W_MapObject {
    /// How the leaf holds its entries.
    pub open(crate) spec fn strategy_of(&self) -> MapStrategy {
        self.strategy
    }

    /// The references of the items block.
    pub open(crate) spec fn slots_of(&self) -> Seq<CelRef> {
        self.items.slots@
    }

    /// The number of entries.
    pub open(crate) spec fn len_of(&self) -> int {
        self.length as int
    }

    /// The host object.
    pub open(crate) spec fn host_of(&self) -> CelRef {
        self.storage
    }

    /// How the leaf holds its entries.
    pub fn strategy(&self) -> (r: MapStrategy)
        ensures
            r == self.strategy_of(),
    {
        self.strategy
    }
}

/// The number of entries of a map leaf.
pub fn map_len(m: &W_MapObject) -> (r: usize)
    ensures
        r == map_leaf_view(*m).len(),
        r == m.len_of(),
{
    proof {
        use_type_invariant(m);
    }
    m.length
}

/// Whether a reference is to the string `name`.
fn string_eq_str(w: &CelRef, name: &str) -> (r: bool)
    ensures
        r == (ref_view(*w) == Val::Str(name@)),
{
    match w {
        None => false,
        Some(leaf) => match string_as_str(leaf) {
            Some(s) => str_eq(s, name),
            None => false,
        },
    }
}

/// The value that stands after the name among `n` pairs of references.
fn lookup_string_pairs(slots: &Vec<CelRef>, n: usize, name: &str) -> (r: Option<CelRef>)
    requires
        2 * n <= slots@.len(),
    ensures
        match r {
            Some(x) => {
                let p = position(paired(refs_view(slots@), n as nat), Val::Str(name@));
                &&& 0 <= p < n
                &&& x == slots@[2 * p + 1]
                &&& lookup(paired(refs_view(slots@), n as nat), Val::Str(name@)) == Some(
                    ref_view(x),
                )
            },
            None => lookup(paired(refs_view(slots@), n as nat), Val::Str(name@)) is None,
        },
{
    let ghost m = paired(refs_view(slots@), n as nat);
    let ghost k = Val::Str(name@);
    let len: usize = slots.len();
    let mut i: usize = 0;
    while i < n
        invariant
            i <= n,
            2 * n <= slots@.len(),
            len == slots@.len(),
            m == paired(refs_view(slots@), n as nat),
            k == Val::Str(name@),
            position(m, k) == position_from(m, k, i as int),
        decreases n - i,
    {
        assert(m[i as int] == (ref_view(slots@[2 * i]), ref_view(slots@[2 * i + 1])));
        if string_eq_str(&slots[2 * i], name) {
            return Some(clone_ref(&slots[2 * i + 1]));
        }
        i = i + 1;
    }
    None
}

/// The value of a string key in a map leaf that holds references.
pub fn map_lookup_string(m: &W_MapObject, name: &str) -> (r: Option<CelRef>)
    ensures
        match m.strategy_of() {
            MapStrategy::Object => match r {
                Some(x) => {
                    let p = position(map_leaf_view(*m), Val::Str(name@));
                    &&& 0 <= p < m.len_of()
                    &&& x == m.slots_of()[2 * p + 1]
                    &&& lookup(map_leaf_view(*m), Val::Str(name@)) == Some(ref_view(x))
                },
                None => lookup(map_leaf_view(*m), Val::Str(name@)) is None,
            },
            MapStrategy::Record => r is None,
        },
{
    proof {
        use_type_invariant(m);
    }
    match m.strategy {
        MapStrategy::Object => lookup_string_pairs(&m.items.slots, m.length, name),
        MapStrategy::Record => None,
    }
}

/// A struct leaf with these fields.
pub fn new_struct(heap: &mut CelHeap, name: Arc<String>, fields: &Vec<(CelRef, CelRef)>) -> (r:
    CelRef)
    requires
        old(heap).wf(),
    ensures
        final(heap).grown_from(old(heap)),
        r matches Some(w) && *w is Struct && minted_with_block(
            old(heap),
            final(heap),
            block_bytes(8, 8, 2 * fields@.len() as int),
            32,
            *w,
        ),
        ref_view(r) == Val::Struct(name@, ref_pairs_view(fields@)),
        r matches Some(w) && *w matches W_Root::Struct(s) && s.slots_of() == flattened(fields@)
            && s.len_of() == fields@.len() && s.name_of() == name@,
{
    let block = interleaved_pair_block(heap, fields);
    let ob_header = malloc_typed(heap, 32);
    let leaf = W_StructObject { ob_header, name, fields: block, length: fields.len() };
    Some(Arc::new(W_Root::Struct(leaf)))
}

impl W_StructObject {
    /// The references of the fields block.
    pub open(crate) spec fn slots_of(&self) -> Seq<CelRef> {
        self.fields.slots@
    }

    /// The number of fields.
    pub open(crate) spec fn len_of(&self) -> int {
        self.length as int
    }

    /// The name of the struct's type.
    pub open(crate) spec fn name_of(&self) -> Seq<char> {
        self.name@
    }
}

/// The value of a field of a struct leaf.
pub fn struct_lookup_field(s: &W_StructObject, name: &str) -> (r: Option<CelRef>)
    ensures
        match r {
            Some(x) => {
                let p = position(root_view(W_Root::Struct(*s))->Struct_1, Val::Str(name@));
                &&& 0 <= p < s.len_of()
                &&& x == s.slots_of()[2 * p + 1]
                &&& lookup(root_view(W_Root::Struct(*s))->Struct_1, Val::Str(name@)) == Some(
                    ref_view(x),
                )
            },
            None => lookup(root_view(W_Root::Struct(*s))->Struct_1, Val::Str(name@)) is None,
        },
{
    proof {
        use_type_invariant(s);
    }
    lookup_string_pairs(&s.fields.slots, s.length, name)
}

// ---------------------------------------------------------------------------
// Activation records.

/// An activation record with `n_slots` locals and room for `max_stack` more cells.
pub fn new_cel_frame_in(heap: &mut CelHeap, n_slots: i64, max_stack: i64) -> (r: W_CelFrame)
    requires
        old(heap).wf(),
        n_slots <= usize::MAX,
        max_stack <= usize::MAX,
    ensures
        final(heap).grown_from(old(heap)),
        minted_with_block(
            old(heap),
            final(heap),
            block_bytes(8, 8, frame_cells(n_slots, max_stack)),
            48,
            W_Root::Frame(r),
        ),
        r.vable_token == 0,
        r.last_instr == -1,
        r.valuestackdepth == n_slots,
        r.n_slots == n_slots,
        r.locals_stack_w.cells() == frame_cells(n_slots, max_stack),
        forall|i: int| 0 <= i < r.locals_stack_w.cells() ==> (#[trigger] r.locals_stack_w.cell(i)) is None,
{
    let locals: usize = if n_slots > 0 {
        n_slots as usize
    } else {
        0
    };
    let stack: usize = if max_stack > 0 {
        max_stack as usize
    } else {
        0
    };
    let cap: usize = locals.saturating_add(stack);
    let items = new_items_block_zeroed(heap, cap);
    let ob_header = malloc_typed(heap, 48);
    let r = W_CelFrame {
        ob_header,
        vable_token: 0,
        last_instr: -1,
        valuestackdepth: n_slots,
        locals_stack_w: VableStack { block: items },
        n_slots,
    };
    r
}

/// How many cells an activation record has.
pub open spec fn frame_cells(n_slots: i64, max_stack: i64) -> int {
    let sum = (if n_slots > 0 {
        n_slots as int
    } else {
        0
    }) + (if max_stack > 0 {
        max_stack as int
    } else {
        0
    });
    if sum <= usize::MAX {
        sum
    } else {
        usize::MAX as int
    }
}

/// An activation record with `n_slots` locals and room for `max_stack` more cells.
pub fn new_cel_frame(heap: &mut CelHeap, n_slots: i64, max_stack: i64) -> (r: W_CelFrame)
    requires
        old(heap).wf(),
        n_slots <= usize::MAX,
        max_stack <= usize::MAX,
    ensures
        final(heap).grown_from(old(heap)),
        minted_with_block(
            old(heap),
            final(heap),
            block_bytes(8, 8, frame_cells(n_slots, max_stack)),
            48,
            W_Root::Frame(r),
        ),
        r.vable_token == 0,
        r.last_instr == -1,
        r.valuestackdepth == n_slots,
        r.n_slots == n_slots,
        r.locals_stack_w.cells() == frame_cells(n_slots, max_stack),
        forall|i: int| 0 <= i < r.locals_stack_w.cells() ==> (#[trigger] r.locals_stack_w.cell(i)) is None,
{
    new_cel_frame_in(heap, n_slots, max_stack)
}

impl VableStack {
    /// A cell.
    pub open(crate) spec fn cell(&self, i: int) -> CelRef {
        self.block.slots@[i]
    }

    /// What a cell refers to.
    pub fn get(&self, i: usize) -> (r: CelRef)
        requires
            i < self.cells(),
        ensures
            r == self.cell(i as int),
    {
        clone_ref(&self.block.slots[i])
    }

    /// Make a cell refer to `w`.
    pub fn set(&mut self, i: usize, w: CelRef)
        requires
            i < old(self).cells(),
        ensures
            final(self).cells() == old(self).cells(),
            forall|j: int|
                0 <= j < old(self).cells() ==> #[trigger] final(self).cell(j) == if j == i {
                    w
                } else {
                    old(self).cell(j)
                },
    {
        self.block.slots[i] = w;
    }
}

/// What cell `i` of an activation record refers to.
pub fn cel_frame_slot(frame: &W_CelFrame, i: i64) -> (r: CelRef)
    requires
        0 <= i < frame.locals_stack_w.cells(),
    ensures
        r == frame.locals_stack_w.cell(i as int),
{
    let cells: usize = frame.locals_stack_w.capacity();
    assert(i < cells);
    frame.locals_stack_w.get(i as usize)
}

/// The slot of the host table that an opaque leaf names.
pub fn opaque_host_index(w: &W_OpaqueObject) -> (r: HostIndex)
    ensures
        r == w.host_index,
{
    w.host_index
}

} // verus!
