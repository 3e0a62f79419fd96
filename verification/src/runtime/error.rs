//! The out-of-band error channel.
//!
//! An operation of the runtime that fails raises its error into a slot and returns
//! no reference. At most one error is in flight.

use crate::runtime::object::CelRef;
use vstd::prelude::*;

verus! {

/// What went wrong.
#[derive(Clone, Copy, Debug, PartialEq, Eq, Structural)]
pub enum CelErrCode {
    /// A checked operation overflowed.
    Overflow,
    /// The divisor of `/` was zero.
    DivisionByZero,
    /// The divisor of `%` was zero.
    RemainderByZero,
    /// The operator is not defined on this pair of types.
    UnsupportedBinaryOperator,
    /// No overload of the operator takes this type.
    NoSuchOverload,
    /// The value of an empty optional was asked for.
    NoneDereference,
}

/// A raised error: what happened, in which operator, to which operands. A unary
/// operator has no `rhs`.
#[derive(Debug)]
pub struct CelError {
    pub code: CelErrCode,
    pub op: &'static str,
    pub lhs: CelRef,
    pub rhs: CelRef,
}

/// The slot of the error in flight.
#[derive(Debug)]
pub struct ErrorSlot {
    pub raised: Option<CelError>,
}

impl ErrorSlot {
    /// An empty slot.
    pub fn new() -> (r: ErrorSlot)
        ensures
            r.raised is None,
    {
        ErrorSlot { raised: None }
    }
}

/// Raise an error, in place of one in flight, and return no reference.
pub fn raise(slot: &mut ErrorSlot, code: CelErrCode, op: &'static str, lhs: CelRef, rhs: CelRef) -> (r:
    CelRef)
    ensures
        r is None,
        final(slot).raised == Some(CelError { code, op, lhs, rhs }),
{
    slot.raised = Some(CelError { code, op, lhs, rhs });
    None
}

/// Take the error in flight.
pub fn take_error(slot: &mut ErrorSlot) -> (r: Option<CelError>)
    ensures
        r == old(slot).raised,
        final(slot).raised is None,
{
    let mut taken: Option<CelError> = None;
    std::mem::swap(&mut taken, &mut slot.raised);
    taken
}

/// Whether an error is in flight.
pub fn has_error(slot: &ErrorSlot) -> (r: bool)
    ensures
        r == slot.raised is Some,
{
    slot.raised.is_some()
}

/// Drop the error in flight.
pub fn clear_error(slot: &mut ErrorSlot)
    ensures
        final(slot).raised is None,
{
    slot.raised = None;
}

impl Default for ErrorSlot {
    fn default() -> (r: ErrorSlot)
        ensures
            r.raised is None,
    {
        ErrorSlot::new()
    }
}

} // verus!
