//! Why an expression has no value.

use crate::compare::same_value;
use crate::model::{val_eq, ErrV, ResV};
use crate::text::str_eq;
use crate::value::Value;
use std::sync::Arc;
use vstd::prelude::*;

verus! {

/// Why an expression has no value.
#[derive(Debug)]
pub enum ExecutionError {
    /// No overload of the function or operator takes these operands.
    NoSuchOverload,
    /// A value of another type was needed.
    UnexpectedType { got: String, want: String },
    /// The result is out of its type's range.
    Overflow(&'static str, Value, Value),
    DivisionByZero(Value),
    RemainderByZero(Value),
    /// The operator is not defined on these operands.
    UnsupportedBinaryOperator(&'static str, Value, Value),
    IndexOutOfBounds(Value),
    NoSuchKey(Arc<String>),
    /// A name that nothing declares.
    UndeclaredReference(Arc<String>),
    UnsupportedIndex(Value, Value),
    /// The value cannot be a map key.
    UnsupportedKeyType(Value),
    InternalError(String),
    /// A function failed.
    FunctionError { function: String, message: String },
}

/// What an error is.
pub open spec fn error_view(e: ExecutionError) -> ErrV {
    match e {
        ExecutionError::NoSuchOverload => ErrV::NoSuchOverload,
        ExecutionError::UnexpectedType { got, want } => ErrV::UnexpectedType(got@, want@),
        ExecutionError::Overflow(op, l, r) => ErrV::Overflow(op@, l@, r@),
        ExecutionError::DivisionByZero(v) => ErrV::DivisionByZero(v@),
        ExecutionError::RemainderByZero(v) => ErrV::RemainderByZero(v@),
        ExecutionError::UnsupportedBinaryOperator(op, l, r) => ErrV::UnsupportedBinaryOperator(
            op@,
            l@,
            r@,
        ),
        ExecutionError::IndexOutOfBounds(v) => ErrV::IndexOutOfBounds(v@),
        ExecutionError::NoSuchKey(k) => ErrV::NoSuchKey(k@),
        ExecutionError::UndeclaredReference(n) => ErrV::UndeclaredReference(n@),
        ExecutionError::UnsupportedIndex(k, c) => ErrV::UnsupportedIndex(k@, c@),
        ExecutionError::UnsupportedKeyType(v) => ErrV::UnsupportedKeyType(v@),
        ExecutionError::InternalError(m) => ErrV::InternalError(m@),
        ExecutionError::FunctionError { function, message } => ErrV::FunctionError(
            function@,
            message@,
        ),
    }
}

impl View for ExecutionError {
    type V = ErrV;

    open spec fn view(&self) -> ErrV {
        error_view(*self)
    }
}

/// A value or the reason there is none.
pub type ResolveResult = Result<Value, ExecutionError>;

/// What a result is.
pub open spec fn result_view(r: ResolveResult) -> ResV {
    match r {
        Ok(v) => Ok(v@),
        Err(e) => Err(e@),
    }
}

/// Whether two errors say the same, the values in them compared as the language
/// compares them.
pub open spec fn err_eq(a: ErrV, b: ErrV) -> bool {
    match (a, b) {
        (ErrV::NoSuchOverload, ErrV::NoSuchOverload) => true,
        (ErrV::UnexpectedType(g, w), ErrV::UnexpectedType(h, x)) => g == h && w == x,
        (ErrV::Overflow(o, l, r), ErrV::Overflow(p, m, s)) => o == p && val_eq(l, m) && val_eq(
            r,
            s,
        ),
        (ErrV::DivisionByZero(v), ErrV::DivisionByZero(w)) => val_eq(v, w),
        (ErrV::RemainderByZero(v), ErrV::RemainderByZero(w)) => val_eq(v, w),
        (ErrV::UnsupportedBinaryOperator(o, l, r), ErrV::UnsupportedBinaryOperator(p, m, s)) => o
            == p && val_eq(l, m) && val_eq(r, s),
        (ErrV::IndexOutOfBounds(v), ErrV::IndexOutOfBounds(w)) => val_eq(v, w),
        (ErrV::NoSuchKey(k), ErrV::NoSuchKey(l)) => k == l,
        (ErrV::UndeclaredReference(k), ErrV::UndeclaredReference(l)) => k == l,
        (ErrV::UnsupportedIndex(k, c), ErrV::UnsupportedIndex(l, d)) => val_eq(k, l) && val_eq(
            c,
            d,
        ),
        (ErrV::UnsupportedKeyType(v), ErrV::UnsupportedKeyType(w)) => val_eq(v, w),
        (ErrV::InternalError(m), ErrV::InternalError(n)) => m == n,
        (ErrV::FunctionError(f, m), ErrV::FunctionError(g, n)) => f == g && m == n,
        _ => false,
    }
}

impl ExecutionError {
    /// The error of a function that failed.
    pub fn function_error(function: &str, message: &str) -> (r: ExecutionError)
        ensures
            r@ == ErrV::FunctionError(function@, message@),
    {
        ExecutionError::FunctionError { function: function.to_owned(), message: message.to_owned() }
    }

    /// The error of a value that cannot be a map key.
    pub fn unsupported_key_type(value: Value) -> (r: ExecutionError)
        ensures
            r@ == ErrV::UnsupportedKeyType(value@),
    {
        ExecutionError::UnsupportedKeyType(value)
    }
}

impl Clone for ExecutionError {
    fn clone(&self) -> (r: ExecutionError)
        ensures
            r == *self,
    {
        match self {
            ExecutionError::NoSuchOverload => ExecutionError::NoSuchOverload,
            ExecutionError::UnexpectedType { got, want } => ExecutionError::UnexpectedType {
                got: got.clone(),
                want: want.clone(),
            },
            ExecutionError::Overflow(op, l, r) => ExecutionError::Overflow(
                *op,
                l.clone(),
                r.clone(),
            ),
            ExecutionError::DivisionByZero(v) => ExecutionError::DivisionByZero(v.clone()),
            ExecutionError::RemainderByZero(v) => ExecutionError::RemainderByZero(v.clone()),
            ExecutionError::UnsupportedBinaryOperator(op, l, r) =>
                ExecutionError::UnsupportedBinaryOperator(*op, l.clone(), r.clone()),
            ExecutionError::IndexOutOfBounds(v) => ExecutionError::IndexOutOfBounds(v.clone()),
            ExecutionError::NoSuchKey(k) => ExecutionError::NoSuchKey(k.clone()),
            ExecutionError::UndeclaredReference(n) => ExecutionError::UndeclaredReference(
                n.clone(),
            ),
            ExecutionError::UnsupportedIndex(k, c) => ExecutionError::UnsupportedIndex(
                k.clone(),
                c.clone(),
            ),
            ExecutionError::UnsupportedKeyType(v) => ExecutionError::UnsupportedKeyType(v.clone()),
            ExecutionError::InternalError(m) => ExecutionError::InternalError(m.clone()),
            ExecutionError::FunctionError { function, message } => ExecutionError::FunctionError {
                function: function.clone(),
                message: message.clone(),
            },
        }
    }
}

impl PartialEq for ExecutionError {
    fn eq(&self, other: &ExecutionError) -> (r: bool) {
        match (self, other) {
            (ExecutionError::NoSuchOverload, ExecutionError::NoSuchOverload) => true,
            (
                ExecutionError::UnexpectedType { got: g, want: w },
                ExecutionError::UnexpectedType { got: h, want: x },
            ) => str_eq(g.as_str(), h.as_str()) && str_eq(w.as_str(), x.as_str()),
            (ExecutionError::Overflow(o, l, r), ExecutionError::Overflow(p, m, s)) => str_eq(o, p)
                && same_value(l, m) && same_value(r, s),
            (ExecutionError::DivisionByZero(v), ExecutionError::DivisionByZero(w)) => same_value(
                v,
                w,
            ),
            (ExecutionError::RemainderByZero(v), ExecutionError::RemainderByZero(w)) => same_value(
                v,
                w,
            ),
            (
                ExecutionError::UnsupportedBinaryOperator(o, l, r),
                ExecutionError::UnsupportedBinaryOperator(p, m, s),
            ) => str_eq(o, p) && same_value(l, m) && same_value(r, s),
            (ExecutionError::IndexOutOfBounds(v), ExecutionError::IndexOutOfBounds(w)) => same_value(
                v,
                w,
            ),
            (ExecutionError::NoSuchKey(k), ExecutionError::NoSuchKey(l)) => str_eq(
                k.as_str(),
                l.as_str(),
            ),
            (ExecutionError::UndeclaredReference(k), ExecutionError::UndeclaredReference(l)) =>
                str_eq(k.as_str(), l.as_str()),
            (ExecutionError::UnsupportedIndex(k, c), ExecutionError::UnsupportedIndex(l, d)) =>
                same_value(k, l) && same_value(c, d),
            (ExecutionError::UnsupportedKeyType(v), ExecutionError::UnsupportedKeyType(w)) =>
                same_value(v, w),
            (ExecutionError::InternalError(m), ExecutionError::InternalError(n)) => str_eq(
                m.as_str(),
                n.as_str(),
            ),
            (
                ExecutionError::FunctionError { function: f, message: m },
                ExecutionError::FunctionError { function: g, message: n },
            ) => str_eq(f.as_str(), g.as_str()) && str_eq(m.as_str(), n.as_str()),
            _ => false,
        }
    }
}

impl vstd::std_specs::cmp::PartialEqSpecImpl for ExecutionError {
    open spec fn obeys_eq_spec() -> bool {
        true
    }

    open spec fn eq_spec(&self, other: &ExecutionError) -> bool {
        err_eq(self@, other@)
    }
}

} // verus!
