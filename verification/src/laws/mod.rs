//! What holds of the language as a whole.

pub mod arithmetic;
pub mod building;
pub mod calls;
pub mod comprehension;
pub mod conversions;
pub mod equality;
pub mod functions;
pub mod heaps;
pub mod interned;
pub mod leaves;
pub mod literals;
pub mod logic;
pub mod lookup;
pub mod machine;
pub mod macros;
pub mod members;
pub mod names;
pub mod operators;
pub mod ordering;
pub mod replay;
pub mod sameness;
pub mod scalars;
pub mod stores;
