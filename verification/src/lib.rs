//! A verified runtime for CEL, the Common Expression Language.

pub mod access;
pub mod ast;
pub mod column;
pub mod compare;
pub mod context;
pub mod double;
pub mod error;
pub mod from;
pub mod key;
pub mod laws;
pub mod list;
pub mod map;
pub mod model;
pub mod ops;
pub mod resolve;
pub mod runtime;
pub mod semantics;
pub mod shared;
pub mod text;
pub mod time;
pub mod value;
