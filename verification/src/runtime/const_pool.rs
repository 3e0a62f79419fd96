//! The leaves of a program's constants.
//!
//! They are made once, belong to no heap, and are never reclaimed while something
//! refers to them.

use crate::model::Val;
use crate::runtime::object::{
    is_prebuilt, place_of, root_view, CelObject, CelRef, Place, W_BytesObject, W_DoubleObject,
    W_DurationObject, W_IntObject, W_Root, W_StringObject, W_TimestampObject, W_UIntObject,
    PREBUILT_INT_FROM, PREBUILT_INT_TO,
};
use crate::runtime::object_array::CelBytesBlock;
use crate::value::Value;
use std::sync::Arc;
use vstd::prelude::*;

verus! {

/// The memory of a program's constants: one block per allocation.
#[derive(Debug)]
pub struct ConstPool {
    /// The sizes of the blocks.
    blocks: Vec<usize>,
}

/// What a constant's leaf is, if it gets one. Prebuilt values need none, and
/// containers get none.
pub open(crate) spec fn const_leaf(v: Value) -> Option<Val> {
    match v {
        Value::Interned(w) => Some(root_view(*w)),
        Value::Int(i) => if is_prebuilt(i) {
            None
        } else {
            Some(Val::Int(i))
        },
        Value::UInt(u) => Some(Val::UInt(u)),
        Value::Float(f) => Some(Val::Double(f)),
        Value::String(s) => Some(Val::Str(s@)),
        Value::Bytes(b) => Some(Val::Bytes(b@)),
        Value::Duration(d) => if i64::MIN <= d@ <= i64::MAX {
            Some(Val::Duration(d@))
        } else {
            None
        },
        Value::Timestamp(t) => if i64::MIN <= t@.nanos <= i64::MAX {
            Some(Val::Timestamp(t@.smoothed()))
        } else {
            None
        },
        _ => None,
    }
}

impl ConstPool {
    /// How many blocks there are.
    pub closed spec fn block_count(&self) -> nat {
        self.blocks@.len()
    }

    /// A pool without constants.
    pub fn new() -> (r: ConstPool)
        ensures
            r.block_count() == 0,
    {
        ConstPool { blocks: Vec::new() }
    }

    /// A block of `size` bytes.
    fn alloc_raw(&mut self, size: usize) -> (r: CelObject)
        ensures
            final(self).block_count() == old(self).block_count() + 1,
            r.at matches Place::Constant(b, o) && b == old(self).block_count() && o == 0,
    {
        let n: usize = self.blocks.len();
        self.blocks.push(size);
        CelObject { at: Place::Constant(n, 0) }
    }

    /// A block for `n` bytes of contents.
    fn alloc_bytes_block(&mut self, n: usize)
        ensures
            final(self).block_count() == old(self).block_count() + 1,
    {
        self.blocks.push(n.saturating_add(8));
    }

    /// The leaf of a constant, made in this pool. A leaf is its own; a value that
    /// gets none is loaded as it is.
    pub fn intern(&mut self, v: &Value) -> (r: CelRef)
        ensures
            match r {
                Some(w) => {
                    &&& const_leaf(*v) == Some(root_view(*w))
                    &&& match *v {
                        Value::Interned(x) => w == x && final(self).block_count() == old(
                            self,
                        ).block_count(),
                        _ => place_of(*w) matches Place::Constant(b, o) && old(self).block_count()
                            <= b < final(self).block_count(),
                    }
                },
                None => const_leaf(*v) is None && final(self).block_count() == old(
                    self,
                ).block_count(),
            },
    {
        match v {
            Value::Interned(w) => Some(w.clone()),
            Value::Int(i) => if PREBUILT_INT_FROM <= *i && *i < PREBUILT_INT_TO {
                None
            } else {
                let ob_header = self.alloc_raw(16);
                Some(Arc::new(W_Root::Int(W_IntObject { ob_header, intval: *i })))
            },
            Value::UInt(u) => {
                let ob_header = self.alloc_raw(16);
                Some(Arc::new(W_Root::UInt(W_UIntObject { ob_header, uintval: *u })))
            },
            Value::Float(f) => {
                let ob_header = self.alloc_raw(16);
                Some(Arc::new(W_Root::Double(W_DoubleObject { ob_header, floatval: *f })))
            },
            Value::String(s) => {
                self.alloc_bytes_block(s.as_str().as_bytes().len());
                let ob_header = self.alloc_raw(32);
                Some(Arc::new(W_Root::Str(W_StringObject { ob_header, chars: s.clone() })))
            },
            Value::Bytes(b) => {
                self.alloc_bytes_block(b.len());
                let ob_header = self.alloc_raw(32);
                let data = CelBytesBlock { bytes: b.clone() };
                Some(Arc::new(W_Root::Bytes(W_BytesObject { ob_header, data })))
            },
            Value::Duration(d) => match d.num_nanoseconds() {
                Some(nanos) => {
                    let ob_header = self.alloc_raw(16);
                    Some(Arc::new(W_Root::Duration(W_DurationObject { ob_header, nanos })))
                },
                None => None,
            },
            Value::Timestamp(t) => match t.num_nanoseconds() {
                Some(nanos) => {
                    let ob_header = self.alloc_raw(24);
                    let off_s: i64 = t.offset() as i64;
                    Some(Arc::new(W_Root::Timestamp(W_TimestampObject { ob_header, nanos, off_s })))
                },
                None => None,
            },
            _ => None,
        }
    }
}

impl Default for ConstPool {
    fn default() -> (r: ConstPool)
        ensures
            r.block_count() == 0,
    {
        ConstPool::new()
    }
}

/// The leaves of a program's constants, and the pool that they came from.
#[derive(Debug)]
pub struct InternedConsts {
    pub pool: Arc<ConstPool>,
    pub leaves: Vec<CelRef>,
}

impl InternedConsts {
    /// Leaves and their pool.
    pub fn from_pool(pool: ConstPool, leaves: Vec<CelRef>) -> (r: InternedConsts)
        ensures
            *r.pool == pool,
            r.leaves == leaves,
    {
        InternedConsts { pool: Arc::new(pool), leaves }
    }
}

impl Default for InternedConsts {
    fn default() -> (r: InternedConsts)
        ensures
            r.leaves@.len() == 0,
            r.pool.block_count() == 0,
    {
        InternedConsts { pool: Arc::new(ConstPool::new()), leaves: Vec::new() }
    }
}

impl PartialEq for InternedConsts {
    /// Constants follow from the code they belong to, so that comparing code does not
    /// compare them.
    fn eq(&self, _other: &InternedConsts) -> (r: bool) {
        true
    }
}

impl vstd::std_specs::cmp::PartialEqSpecImpl for InternedConsts {
    open spec fn obeys_eq_spec() -> bool {
        true
    }

    open spec fn eq_spec(&self, _other: &InternedConsts) -> bool {
        true
    }
}

} // verus!
