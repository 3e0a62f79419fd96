//! The object runtime: values as classes of allocated leaves.

pub mod binop;
pub mod const_pool;
pub mod convert;
pub mod error;
pub mod heap;
pub mod interned;
pub mod lltype;
pub mod object;
pub mod object_array;
