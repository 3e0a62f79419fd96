//! `&&`, `||` and the conditional.

use crate::ast::{Expr, Expression};
use crate::context::ScopeV;
use crate::laws::operators::{calls, every_operator_has_its_name};
use crate::model::{ErrV, Val};
use crate::semantics::{arg, eval, to_bool, EvalV, ReplyV};
use vstd::prelude::*;

verus! {

/// Whether the expression is `a && b`, or `a || b` where `or` is set.
pub open spec fn is_logical(e: Expression, or: bool) -> bool {
    e.expr matches Expr::Call(c) && c.args@.len() == 2 && c.func_name@ == if or {
        "_||_"@
    } else {
        "_&&_"@
    }
}

/// The boolean that decides the operator alone stops it: where the left side is
/// `false`, `&&` is, where it is `true`, `||` is, and the right side is not evaluated.
pub proof fn the_left_side_can_decide(
    e: Expression,
    or: bool,
    s: ScopeV,
    replies: Seq<ReplyV>,
    n: nat,
)
    requires
        is_logical(e, or),
        eval(arg(e, 0), s, replies, n).0 == EvalV::Done(Val::Bool(or)),
    ensures
        eval(e, s, replies, n) == eval(arg(e, 0), s, replies, n),
{
    every_operator_has_its_name(""@);
}

/// A right side that decides the operator makes up for an error on the left, and for
/// a left side that is no boolean.
pub proof fn the_right_side_can_decide(
    e: Expression,
    or: bool,
    s: ScopeV,
    replies: Seq<ReplyV>,
    n: nat,
)
    requires
        is_logical(e, or),
        !(eval(arg(e, 0), s, replies, n).0 is Ask),
        ({
            let (_, p) = eval(arg(e, 0), s, replies, n);
            eval(arg(e, 1), s, replies, p).0 == EvalV::Done(Val::Bool(or))
        }),
    ensures
        eval(e, s, replies, n).0 == EvalV::Done(Val::Bool(or)),
{
    every_operator_has_its_name(""@);
}

/// Two booleans are joined as the operator says.
pub proof fn booleans_are_joined(
    e: Expression,
    or: bool,
    a: bool,
    b: bool,
    s: ScopeV,
    replies: Seq<ReplyV>,
    n: nat,
)
    requires
        is_logical(e, or),
        eval(arg(e, 0), s, replies, n).0 == EvalV::Done(Val::Bool(a)),
        ({
            let (_, p) = eval(arg(e, 0), s, replies, n);
            eval(arg(e, 1), s, replies, p).0 == EvalV::Done(Val::Bool(b))
        }),
    ensures
        eval(e, s, replies, n).0 == EvalV::Done(
            Val::Bool(
                if or {
                    a || b
                } else {
                    a && b
                },
            ),
        ),
{
    every_operator_has_its_name(""@);
}

/// The operators absorb: `||` is `true` exactly where a side is, `false` exactly where
/// both are, and an error in every other case, and so is `&&` with `true` and `false`
/// exchanged. The right side matters only where the left one does not decide.
pub proof fn the_operators_absorb(
    e: Expression,
    or: bool,
    s: ScopeV,
    replies: Seq<ReplyV>,
    n: nat,
)
    requires
        is_logical(e, or),
        !(eval(arg(e, 0), s, replies, n).0 is Ask),
        ({
            let (left, p) = eval(arg(e, 0), s, replies, n);
            left == EvalV::Done(Val::Bool(or)) || !(eval(arg(e, 1), s, replies, p).0 is Ask)
        }),
    ensures
        ({
            let (left, p) = eval(arg(e, 0), s, replies, n);
            let (right, _) = eval(arg(e, 1), s, replies, p);
            let decided = EvalV::Done(Val::Bool(or));
            let other = EvalV::Done(Val::Bool(!or));
            let r = eval(e, s, replies, n).0;
            &&& r == decided <==> left == decided || right == decided
            &&& r == other <==> left == other && right == other
            &&& r == decided || r == other || r is Fail
        }),
{
    every_operator_has_its_name(""@);
}

/// The order of the operands does not change the value: where neither side needs a
/// reply, exchanging them gives the same value, or an error both times.
pub proof fn the_operands_commute(
    e: Expression,
    f: Expression,
    or: bool,
    s: ScopeV,
    replies: Seq<ReplyV>,
    n: nat,
)
    requires
        is_logical(e, or),
        is_logical(f, or),
        arg(f, 0) == arg(e, 1),
        arg(f, 1) == arg(e, 0),
        eval(arg(e, 0), s, replies, n).1 == n,
        eval(arg(e, 1), s, replies, n).1 == n,
        !(eval(arg(e, 0), s, replies, n).0 is Ask),
        !(eval(arg(e, 1), s, replies, n).0 is Ask),
    ensures
        match eval(e, s, replies, n).0 {
            EvalV::Done(v) => eval(f, s, replies, n).0 == EvalV::Done(v),
            EvalV::Fail(_) => eval(f, s, replies, n).0 is Fail,
            EvalV::Ask(_) => false,
        },
{
    every_operator_has_its_name(""@);
}

/// The value of `&&` and of `||` is a boolean.
pub proof fn the_result_is_a_boolean(
    e: Expression,
    or: bool,
    s: ScopeV,
    replies: Seq<ReplyV>,
    n: nat,
)
    requires
        is_logical(e, or),
    ensures
        eval(e, s, replies, n).0 matches EvalV::Done(v) ==> v is Bool,
{
    every_operator_has_its_name(""@);
    let (l, p) = eval(arg(e, 0), s, replies, n);
    let left = to_bool(l);
    let (r, q) = eval(arg(e, 1), s, replies, p);
}

/// Only the branch that the condition picks is evaluated.
pub proof fn a_conditional_evaluates_one_branch(
    e: Expression,
    b: bool,
    s: ScopeV,
    replies: Seq<ReplyV>,
    n: nat,
)
    requires
        calls(e, "_?_:_"@, 3),
        eval(arg(e, 0), s, replies, n).0 == EvalV::Done(Val::Bool(b)),
    ensures
        ({
            let (_, p) = eval(arg(e, 0), s, replies, n);
            eval(e, s, replies, n) == eval(
                arg(
                    e,
                    if b {
                        1
                    } else {
                        2
                    },
                ),
                s,
                replies,
                p,
            )
        }),
{
    every_operator_has_its_name(""@);
}

/// A condition that is no boolean, or that has no value, ends the conditional: neither
/// branch is evaluated.
pub proof fn a_conditional_needs_a_boolean(
    e: Expression,
    s: ScopeV,
    replies: Seq<ReplyV>,
    n: nat,
)
    requires
        calls(e, "_?_:_"@, 3),
    ensures
        ({
            let (c, p) = eval(arg(e, 0), s, replies, n);
            match c {
                EvalV::Done(Val::Bool(_)) => true,
                EvalV::Done(_) => eval(e, s, replies, n) == (EvalV::Fail(ErrV::NoSuchOverload), p),
                _ => eval(e, s, replies, n) == (c, p),
            }
        }),
{
    every_operator_has_its_name(""@);
}

/// Where neither side decides `&&` and `||`, they end as the right side does that has no
/// value, else as the left side does that has none; a side that is no boolean has no such
/// overload. A side that waits for a reply waits.
pub proof fn the_operators_fail_as_their_sides_do(
    e: Expression,
    or: bool,
    s: ScopeV,
    replies: Seq<ReplyV>,
    n: nat,
)
    requires
        is_logical(e, or),
    ensures
        ({
            let (left, p) = eval(arg(e, 0), s, replies, n);
            let (right, q) = eval(arg(e, 1), s, replies, p);
            let decided = EvalV::Done(Val::Bool(or));
            let r = eval(e, s, replies, n);
            &&& left is Ask ==> r == (left, p)
            &&& !(left is Ask) && left != decided && right is Ask ==> r == (right, q)
            &&& !(left is Ask) && left != decided && right is Fail ==> r == (right, q)
            &&& left is Fail && right is Done && right != decided ==> r == (left, q)
            &&& (left is Done && !(left->Done_0 is Bool) && right is Done && right != decided || left
                == EvalV::Done(Val::Bool(!or)) && right is Done && !(right->Done_0 is Bool)) ==> r
                == (EvalV::Fail(ErrV::NoSuchOverload), q)
        }),
{
    every_operator_has_its_name(""@);
}

} // verus!
