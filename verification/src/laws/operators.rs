//! What the operators come to, by the names that calls give them.

use crate::ast::{operator, Expr, Expression, Operator};
use crate::context::ScopeV;
use crate::laws::ordering::{
    amount, byte_strings_are_ordered_as_in_a_dictionary, measure_of, precedes,
    strings_are_ordered_by_their_bytes, values_are_ordered_by_their_measure,
};
use crate::model::{
    binary, compare, leaf_eq, negate, quotient, remainder, val_eq, BinOp, CmpOp, ErrV, OutV, ResV,
    Val,
};
use crate::runtime::object::root_view;
use crate::semantics::{arg, eval, eval_leaf, EvalV, ReplyV, RequestV};
use crate::time::Instant;
use vstd::prelude::*;
use vstd::utf8::encode_utf8;

verus! {

/// Whether a name is that of an operator.
pub open spec fn names_an_operator(name: Seq<char>) -> bool {
    ||| name == "_?_:_"@
    ||| name == "_||_"@
    ||| name == "_&&_"@
    ||| name == "!_"@
    ||| name == "_==_"@
    ||| name == "_!=_"@
    ||| name == "_[_]"@
    ||| name == "_[?_]"@
    ||| name == "_?._"@
    ||| name == "@in"@
    ||| name == "-_"@
    ||| name == "@not_strictly_false"@
    ||| name == "_+_"@
    ||| name == "_-_"@
    ||| name == "_*_"@
    ||| name == "_/_"@
    ||| name == "_%_"@
    ||| name == "_<_"@
    ||| name == "_<=_"@
    ||| name == "_>_"@
    ||| name == "_>=_"@
}

/// Every operator has a name of its own, and any other name is that of a function.
pub proof fn every_operator_has_its_name(name: Seq<char>)
    ensures
        operator("_?_:_"@) == Operator::Conditional,
        operator("_||_"@) == Operator::LogicalOr,
        operator("_&&_"@) == Operator::LogicalAnd,
        operator("!_"@) == Operator::LogicalNot,
        operator("_==_"@) == Operator::Equals,
        operator("_!=_"@) == Operator::NotEquals,
        operator("_[_]"@) == Operator::Index,
        operator("_[?_]"@) == Operator::OptIndex,
        operator("_?._"@) == Operator::OptSelect,
        operator("@in"@) == Operator::In,
        operator("-_"@) == Operator::Negate,
        operator("@not_strictly_false"@) == Operator::NotStrictlyFalse,
        operator("_+_"@) == Operator::Arith(BinOp::Add),
        operator("_-_"@) == Operator::Arith(BinOp::Sub),
        operator("_*_"@) == Operator::Arith(BinOp::Mul),
        operator("_/_"@) == Operator::Arith(BinOp::Div),
        operator("_%_"@) == Operator::Arith(BinOp::Rem),
        operator("_<_"@) == Operator::Ordered(CmpOp::Less),
        operator("_<=_"@) == Operator::Ordered(CmpOp::LessEquals),
        operator("_>_"@) == Operator::Ordered(CmpOp::Greater),
        operator("_>=_"@) == Operator::Ordered(CmpOp::GreaterEquals),
        !names_an_operator(name) ==> operator(name) == Operator::Function,
{
    reveal_strlit("_?_:_");
    reveal_strlit("_||_");
    reveal_strlit("_&&_");
    reveal_strlit("!_");
    reveal_strlit("_==_");
    reveal_strlit("_!=_");
    reveal_strlit("_[_]");
    reveal_strlit("_[?_]");
    reveal_strlit("_?._");
    reveal_strlit("@in");
    reveal_strlit("-_");
    reveal_strlit("@not_strictly_false");
    reveal_strlit("_+_");
    reveal_strlit("_-_");
    reveal_strlit("_*_");
    reveal_strlit("_/_");
    reveal_strlit("_%_");
    reveal_strlit("_<_");
    reveal_strlit("_<=_");
    reveal_strlit("_>_");
    reveal_strlit("_>=_");
    assert("_?_:_"@.len() == 5 && "_?_:_"@[0] == '_' && "_?_:_"@[1] == '?' && "_?_:_"@[2] == '_');
    assert("_||_"@.len() == 4 && "_||_"@[0] == '_' && "_||_"@[1] == '|' && "_||_"@[2] == '|');
    assert("_&&_"@.len() == 4 && "_&&_"@[0] == '_' && "_&&_"@[1] == '&' && "_&&_"@[2] == '&');
    assert("!_"@.len() == 2 && "!_"@[0] == '!' && "!_"@[1] == '_');
    assert("_==_"@.len() == 4 && "_==_"@[0] == '_' && "_==_"@[1] == '=' && "_==_"@[2] == '=');
    assert("_!=_"@.len() == 4 && "_!=_"@[0] == '_' && "_!=_"@[1] == '!' && "_!=_"@[2] == '=');
    assert("_[_]"@.len() == 4 && "_[_]"@[0] == '_' && "_[_]"@[1] == '[' && "_[_]"@[2] == '_');
    assert("_[?_]"@.len() == 5 && "_[?_]"@[0] == '_' && "_[?_]"@[1] == '[' && "_[?_]"@[2] == '?');
    assert("_?._"@.len() == 4 && "_?._"@[0] == '_' && "_?._"@[1] == '?' && "_?._"@[2] == '.');
    assert("@in"@.len() == 3 && "@in"@[0] == '@' && "@in"@[1] == 'i' && "@in"@[2] == 'n');
    assert("-_"@.len() == 2 && "-_"@[0] == '-' && "-_"@[1] == '_');
    assert("@not_strictly_false"@.len() == 19 && "@not_strictly_false"@[0] == '@' && "@not_strictly_false"@[1] == 'n' && "@not_strictly_false"@[2] == 'o');
    assert("_+_"@.len() == 3 && "_+_"@[0] == '_' && "_+_"@[1] == '+' && "_+_"@[2] == '_');
    assert("_-_"@.len() == 3 && "_-_"@[0] == '_' && "_-_"@[1] == '-' && "_-_"@[2] == '_');
    assert("_*_"@.len() == 3 && "_*_"@[0] == '_' && "_*_"@[1] == '*' && "_*_"@[2] == '_');
    assert("_/_"@.len() == 3 && "_/_"@[0] == '_' && "_/_"@[1] == '/' && "_/_"@[2] == '_');
    assert("_%_"@.len() == 3 && "_%_"@[0] == '_' && "_%_"@[1] == '%' && "_%_"@[2] == '_');
    assert("_<_"@.len() == 3 && "_<_"@[0] == '_' && "_<_"@[1] == '<' && "_<_"@[2] == '_');
    assert("_<=_"@.len() == 4 && "_<=_"@[0] == '_' && "_<=_"@[1] == '<' && "_<=_"@[2] == '=');
    assert("_>_"@.len() == 3 && "_>_"@[0] == '_' && "_>_"@[1] == '>' && "_>_"@[2] == '_');
    assert("_>=_"@.len() == 4 && "_>=_"@[0] == '_' && "_>=_"@[1] == '>' && "_>=_"@[2] == '=');
}

/// Whether an expression calls `name` with `k` arguments.
pub open spec fn calls(e: Expression, name: Seq<char>, k: nat) -> bool {
    e.expr matches Expr::Call(c) && c.func_name@ == name && c.args@.len() == k
}

/// Whether the two arguments of a call come to `a` and `b`, the first one first.
pub open spec fn takes(
    e: Expression,
    a: Val,
    b: Val,
    s: ScopeV,
    replies: Seq<ReplyV>,
    n: nat,
) -> bool {
    let (l, p) = eval(arg(e, 0), s, replies, n);
    l == EvalV::Done(a) && eval(arg(e, 1), s, replies, p).0 == EvalV::Done(b)
}

/// How many replies are taken when both arguments have their values.
pub open spec fn taken(e: Expression, s: ScopeV, replies: Seq<ReplyV>, n: nat) -> nat {
    eval(arg(e, 1), s, replies, eval(arg(e, 0), s, replies, n).1).1
}

/// Whether neither argument is held as a leaf.
pub open spec fn are_public(e: Expression, s: ScopeV, replies: Seq<ReplyV>, n: nat) -> bool {
    &&& eval_leaf(arg(e, 0), s, replies, n) is None
    &&& eval_leaf(arg(e, 1), s, replies, eval(arg(e, 0), s, replies, n).1) is None
}

/// How an expression ends with a result.
pub open spec fn ends(r: ResV) -> EvalV {
    match r {
        Ok(v) => EvalV::Done(v),
        Err(e) => EvalV::Fail(e),
    }
}

/// `<`, `<=`, `>` and `>=` are called by these names, and compare the values of their
/// operands, the left one with the right one.
pub proof fn the_ordering_operators_compare(
    e: Expression,
    a: Val,
    b: Val,
    s: ScopeV,
    replies: Seq<ReplyV>,
    n: nat,
)
    requires
        takes(e, a, b, s, replies, n),
    ensures
        ({
            let r = eval(e, s, replies, n);
            let m = taken(e, s, replies, n);
            &&& calls(e, "_<_"@, 2) ==> r == (ends(compare(CmpOp::Less, a, b)), m)
            &&& calls(e, "_<=_"@, 2) ==> r == (ends(compare(CmpOp::LessEquals, a, b)), m)
            &&& calls(e, "_>_"@, 2) ==> r == (ends(compare(CmpOp::Greater, a, b)), m)
            &&& calls(e, "_>=_"@, 2) ==> r == (ends(compare(CmpOp::GreaterEquals, a, b)), m)
        }),
{
    every_operator_has_its_name(""@);
}

/// An expression that orders two numbers, durations, timestamps or booleans is true as
/// the numbers are that measure them.
pub proof fn ordering_follows_the_measure(
    e: Expression,
    a: Val,
    b: Val,
    s: ScopeV,
    replies: Seq<ReplyV>,
    n: nat,
)
    requires
        takes(e, a, b, s, replies, n),
        measure_of(a) is Some,
        measure_of(a) == measure_of(b),
    ensures
        ({
            let r = eval(e, s, replies, n).0;
            let (x, y) = (amount(a), amount(b));
            &&& calls(e, "_<_"@, 2) ==> r == EvalV::Done(Val::Bool(x < y))
            &&& calls(e, "_<=_"@, 2) ==> r == EvalV::Done(Val::Bool(x <= y))
            &&& calls(e, "_>_"@, 2) ==> r == EvalV::Done(Val::Bool(x > y))
            &&& calls(e, "_>=_"@, 2) ==> r == EvalV::Done(Val::Bool(x >= y))
        }),
{
    the_ordering_operators_compare(e, a, b, s, replies, n);
    values_are_ordered_by_their_measure(a, b);
}

/// An expression that orders two strings, or two byte strings, is true as in a
/// dictionary.
pub proof fn ordering_follows_the_dictionary(
    e: Expression,
    a: Val,
    b: Val,
    s: ScopeV,
    replies: Seq<ReplyV>,
    n: nat,
)
    requires
        takes(e, a, b, s, replies, n),
        a is Str && b is Str || a is Bytes && b is Bytes,
    ensures
        ({
            let r = eval(e, s, replies, n).0;
            let (x, y) = match (a, b) {
                (Val::Str(p), Val::Str(q)) => (encode_utf8(p), encode_utf8(q)),
                _ => (a->Bytes_0, b->Bytes_0),
            };
            &&& calls(e, "_<_"@, 2) ==> r == EvalV::Done(Val::Bool(precedes(x, y)))
            &&& calls(e, "_<=_"@, 2) ==> r == EvalV::Done(Val::Bool(precedes(x, y) || x == y))
            &&& calls(e, "_>_"@, 2) ==> r == EvalV::Done(Val::Bool(precedes(y, x)))
            &&& calls(e, "_>=_"@, 2) ==> r == EvalV::Done(Val::Bool(precedes(y, x) || x == y))
        }),
{
    the_ordering_operators_compare(e, a, b, s, replies, n);
    match (a, b) {
        (Val::Str(p), Val::Str(q)) => strings_are_ordered_by_their_bytes(p, q),
        (Val::Bytes(p), Val::Bytes(q)) => byte_strings_are_ordered_as_in_a_dictionary(p, q),
        _ => {},
    }
}

/// `==` and `!=` are called by these names. `==` says whether the operands are equal, and
/// `!=` says the opposite.
pub proof fn the_equality_operators_compare(
    e: Expression,
    a: Val,
    b: Val,
    s: ScopeV,
    replies: Seq<ReplyV>,
    n: nat,
)
    requires
        takes(e, a, b, s, replies, n),
        are_public(e, s, replies, n),
    ensures
        ({
            let r = eval(e, s, replies, n);
            let m = taken(e, s, replies, n);
            &&& calls(e, "_==_"@, 2) ==> r == (EvalV::Done(Val::Bool(val_eq(a, b))), m)
            &&& calls(e, "_!=_"@, 2) ==> r == (EvalV::Done(Val::Bool(!val_eq(a, b))), m)
        }),
{
    every_operator_has_its_name(""@);
}

/// Operands that are held as leaves are compared as the runtime compares them; a public
/// value beside a leaf is compared so too.
pub proof fn leaves_are_compared_as_leaves(
    e: Expression,
    a: Val,
    b: Val,
    s: ScopeV,
    replies: Seq<ReplyV>,
    n: nat,
)
    requires
        takes(e, a, b, s, replies, n),
    ensures
        ({
            let r = eval(e, s, replies, n).0;
            let p = eval(arg(e, 0), s, replies, n).1;
            let same = match (
                eval_leaf(arg(e, 0), s, replies, n),
                eval_leaf(arg(e, 1), s, replies, p),
            ) {
                (Some(v), Some(w)) => leaf_eq(root_view(v), root_view(w)),
                (Some(v), None) => leaf_eq(root_view(v), b),
                (None, Some(w)) => leaf_eq(root_view(w), a),
                (None, None) => val_eq(a, b),
            };
            &&& calls(e, "_==_"@, 2) ==> r == EvalV::Done(Val::Bool(same))
            &&& calls(e, "_!=_"@, 2) ==> r == EvalV::Done(Val::Bool(!same))
        }),
{
    every_operator_has_its_name(""@);
}

/// The five arithmetic operators are called by these names, and are carried out on the
/// values of their operands; on two doubles the program is asked.
pub proof fn the_arithmetic_operators_compute(
    e: Expression,
    op: BinOp,
    a: Val,
    b: Val,
    s: ScopeV,
    replies: Seq<ReplyV>,
    n: nat,
)
    requires
        takes(e, a, b, s, replies, n),
        calls(
            e,
            match op {
                BinOp::Add => "_+_"@,
                BinOp::Sub => "_-_"@,
                BinOp::Mul => "_*_"@,
                BinOp::Div => "_/_"@,
                BinOp::Rem => "_%_"@,
            },
            2,
        ),
    ensures
        match binary(op, a, b) {
            OutV::Done(r) => eval(e, s, replies, n) == (ends(r), taken(e, s, replies, n)),
            OutV::Double(d, x, y) => taken(e, s, replies, n) >= replies.len() ==> eval(
                e,
                s,
                replies,
                n,
            ).0 == EvalV::Ask(RequestV::Double(d, x, y)),
        },
{
    every_operator_has_its_name(""@);
}

/// Whether a number fits an `int`.
pub open spec fn fits_int(n: int) -> bool {
    -0x8000_0000_0000_0000 <= n <= 0x7fff_ffff_ffff_ffff
}

/// Whether a number fits a `uint`.
pub open spec fn fits_uint(n: int) -> bool {
    0 <= n <= 0xffff_ffff_ffff_ffff
}

/// The `int` that a number is, or the overflow of the operator that would give it.
pub open spec fn int_or(name: Seq<char>, n: int, a: i64, b: i64) -> EvalV {
    if fits_int(n) {
        EvalV::Done(Val::Int(n as i64))
    } else {
        EvalV::Fail(ErrV::Overflow(name, Val::Int(a), Val::Int(b)))
    }
}

/// The `uint` that a number is, or the overflow of the operator that would give it.
pub open spec fn uint_or(name: Seq<char>, n: int, a: u64, b: u64) -> EvalV {
    if fits_uint(n) {
        EvalV::Done(Val::UInt(n as u64))
    } else {
        EvalV::Fail(ErrV::Overflow(name, Val::UInt(a), Val::UInt(b)))
    }
}

/// Integers are added, subtracted and multiplied as numbers are, and what does not fit
/// their type is an overflow with both operands.
pub proof fn integers_are_added_subtracted_and_multiplied(
    e: Expression,
    a: Val,
    b: Val,
    s: ScopeV,
    replies: Seq<ReplyV>,
    n: nat,
)
    requires
        takes(e, a, b, s, replies, n),
    ensures
        ({
            let r = eval(e, s, replies, n).0;
            match (a, b) {
                (Val::Int(x), Val::Int(y)) => {
                    &&& calls(e, "_+_"@, 2) ==> r == int_or("add"@, x + y, x, y)
                    &&& calls(e, "_-_"@, 2) ==> r == int_or("sub"@, x - y, x, y)
                    &&& calls(e, "_*_"@, 2) ==> r == int_or("mul"@, x * y, x, y)
                },
                (Val::UInt(x), Val::UInt(y)) => {
                    &&& calls(e, "_+_"@, 2) ==> r == uint_or("add"@, x + y, x, y)
                    &&& calls(e, "_-_"@, 2) ==> r == uint_or("sub"@, x - y, x, y)
                    &&& calls(e, "_*_"@, 2) ==> r == uint_or("mul"@, x * y, x, y)
                },
                _ => true,
            }
        }),
{
    every_operator_has_its_name(""@);
}

/// How large a number is without its sign.
pub open spec fn size(n: int) -> int {
    if n < 0 {
        -n
    } else {
        n
    }
}

/// Whether `q` is the quotient of `a` and `b`, rounded toward zero: what is left of `a`
/// is less than `b` without its sign, and has the sign of `a`.
pub open spec fn is_quotient(a: int, b: int, q: int) -> bool {
    &&& size(a - q * b) < size(b)
    &&& a >= 0 ==> a - q * b >= 0
    &&& a <= 0 ==> a - q * b <= 0
}

pub(crate) proof fn lemma_quotient(a: int, b: int)
    requires
        b != 0,
    ensures
        is_quotient(a, b, quotient(a, b)),
        remainder(a, b) == a - quotient(a, b) * b,
        size(quotient(a, b)) <= size(a),
        size(remainder(a, b)) < size(b),
        b != -1 && b != 1 && a != 0 ==> size(quotient(a, b)) < size(a),
{
    let x = size(a);
    let y = size(b);
    let (k, m) = (x / y, x % y);
    assert(x == y * k + m && 0 <= m < y && 0 <= k <= x) by (nonlinear_arith)
        requires
            y > 0,
            x >= 0,
            k == x / y,
            m == x % y,
    ;
    if y >= 2 && x > 0 {
        assert(k < x) by (nonlinear_arith)
            requires
                y >= 2,
                x > 0,
                x == y * k + m,
                m >= 0,
        ;
    }
    let q = quotient(a, b);
    assert(q * b == y * k || q * b == -(y * k)) by (nonlinear_arith)
        requires
            q == k || q == -k,
            b == y || b == -y,
    ;
    assert((a < 0) == (b < 0) ==> q * b == b * k) by (nonlinear_arith)
        requires
            (a < 0) == (b < 0) ==> q == k,
    ;
    assert((a < 0) != (b < 0) ==> q * b == -(b * k)) by (nonlinear_arith)
        requires
            (a < 0) != (b < 0) ==> q == -k,
    ;
    assert(b < 0 ==> b * k == -(y * k)) by (nonlinear_arith)
        requires
            b < 0 ==> b == -y,
    ;
    assert(b > 0 ==> b * k == y * k) by (nonlinear_arith)
        requires
            b > 0 ==> b == y,
    ;
}

/// `int`s are divided with the quotient rounded toward zero, and `%` gives what is left.
/// Nothing is divided by zero, and the least `int` has no quotient by minus one.
pub proof fn integers_are_divided_toward_zero(
    e: Expression,
    a: i64,
    b: i64,
    s: ScopeV,
    replies: Seq<ReplyV>,
    n: nat,
)
    requires
        takes(e, Val::Int(a), Val::Int(b), s, replies, n),
    ensures
        ({
            let r = eval(e, s, replies, n).0;
            let (x, y) = (Val::Int(a), Val::Int(b));
            let least = a == -0x8000_0000_0000_0000 && b == -1;
            &&& calls(e, "_/_"@, 2) && b == 0 ==> r == EvalV::Fail(ErrV::DivisionByZero(x))
            &&& calls(e, "_%_"@, 2) && b == 0 ==> r == EvalV::Fail(ErrV::RemainderByZero(x))
            &&& calls(e, "_/_"@, 2) && least ==> r == EvalV::Fail(ErrV::Overflow("div"@, x, y))
            &&& calls(e, "_%_"@, 2) && least ==> r == EvalV::Fail(ErrV::Overflow("rem"@, x, y))
            &&& calls(e, "_/_"@, 2) && b != 0 && !least ==> {
                r matches EvalV::Done(Val::Int(q)) && is_quotient(a as int, b as int, q as int)
            }
            &&& calls(e, "_%_"@, 2) && b != 0 && !least ==> {
                r matches EvalV::Done(Val::Int(m)) && exists|q: int|
                    #[trigger] is_quotient(a as int, b as int, q) && m == a - q * b
            }
        }),
{
    every_operator_has_its_name(""@);
    if b != 0 {
        lemma_quotient(a as int, b as int);
        let q = quotient(a as int, b as int);
        if b == 1 {
            assert(q * b == q) by (nonlinear_arith)
                requires
                    b == 1,
            ;
        } else if b == -1 {
            assert(q * b == -q) by (nonlinear_arith)
                requires
                    b == -1,
            ;
        }
    }
}

/// `uint`s are divided with the quotient rounded down, and `%` gives what is left.
pub proof fn unsigned_integers_are_divided_down(
    e: Expression,
    a: u64,
    b: u64,
    s: ScopeV,
    replies: Seq<ReplyV>,
    n: nat,
)
    requires
        takes(e, Val::UInt(a), Val::UInt(b), s, replies, n),
    ensures
        ({
            let r = eval(e, s, replies, n).0;
            let x = Val::UInt(a);
            &&& calls(e, "_/_"@, 2) && b == 0 ==> r == EvalV::Fail(ErrV::DivisionByZero(x))
            &&& calls(e, "_%_"@, 2) && b == 0 ==> r == EvalV::Fail(ErrV::RemainderByZero(x))
            &&& calls(e, "_/_"@, 2) && b != 0 ==> {
                r matches EvalV::Done(Val::UInt(q)) && 0 <= a - q * b < b
            }
            &&& calls(e, "_%_"@, 2) && b != 0 ==> {
                r matches EvalV::Done(Val::UInt(m)) && m < b && exists|q: int|
                    a == #[trigger] (q * b) + m
            }
        }),
{
    every_operator_has_its_name(""@);
    if b != 0 {
        let (x, y) = (a as int, b as int);
        let (q, m) = (x / y, x % y);
        assert(x == q * y + m && 0 <= m < y && 0 <= q <= x) by (nonlinear_arith)
            requires
                y > 0,
                x >= 0,
                q == x / y,
                m == x % y,
        ;
    }
}

/// Whether a number of nanoseconds is the length of a duration: at most
/// 9223372036854775807 milliseconds, in either direction.
pub open spec fn fits_duration(n: int) -> bool {
    size(n) <= 0x7fff_ffff_ffff_ffff * 1_000_000
}

/// Durations are added and subtracted by their nanoseconds, and what is too long is an
/// overflow with both operands.
pub proof fn durations_are_added_and_subtracted(
    e: Expression,
    a: int,
    b: int,
    s: ScopeV,
    replies: Seq<ReplyV>,
    n: nat,
)
    requires
        takes(e, Val::Duration(a), Val::Duration(b), s, replies, n),
    ensures
        ({
            let r = eval(e, s, replies, n).0;
            let (x, y) = (Val::Duration(a), Val::Duration(b));
            &&& calls(e, "_+_"@, 2) ==> r == if fits_duration(a + b) {
                EvalV::Done(Val::Duration(a + b))
            } else {
                EvalV::Fail(ErrV::Overflow("add"@, x, y))
            }
            &&& calls(e, "_-_"@, 2) ==> r == if fits_duration(a - b) {
                EvalV::Done(Val::Duration(a - b))
            } else {
                EvalV::Fail(ErrV::Overflow("sub"@, x, y))
            }
        }),
{
    every_operator_has_its_name(""@);
}

/// Whether a number of nanoseconds since the Unix epoch lies in the years 1 to 9999:
/// from 719162 days before it to 2932896 days after it.
pub open spec fn lies_in_the_years(n: int) -> bool {
    -719_162 * 86_400 * 1_000_000_000 <= n < 2_932_897 * 86_400 * 1_000_000_000
}

/// A timestamp that lies in no leap second is moved by the nanoseconds of a duration, and
/// keeps its offset. A duration is added from either side and subtracted from the right.
/// What leaves the years 1 to 9999 is an overflow, with the timestamp first.
pub proof fn timestamps_are_moved_by_durations(
    e: Expression,
    t: Instant,
    d: int,
    s: ScopeV,
    replies: Seq<ReplyV>,
    n: nat,
)
    requires
        !t.leap,
    ensures
        ({
            let r = eval(e, s, replies, n).0;
            let (x, y) = (Val::Timestamp(t), Val::Duration(d));
            let later = if lies_in_the_years(t.nanos + d) {
                EvalV::Done(
                    Val::Timestamp(Instant { nanos: t.nanos + d, leap: false, offset: t.offset }),
                )
            } else {
                EvalV::Fail(ErrV::Overflow("add"@, x, y))
            };
            let earlier = if lies_in_the_years(t.nanos - d) {
                EvalV::Done(
                    Val::Timestamp(Instant { nanos: t.nanos - d, leap: false, offset: t.offset }),
                )
            } else {
                EvalV::Fail(ErrV::Overflow("sub"@, x, y))
            };
            &&& calls(e, "_+_"@, 2) && takes(e, x, y, s, replies, n) ==> r == later
            &&& calls(e, "_+_"@, 2) && takes(e, y, x, s, replies, n) ==> r == later
            &&& calls(e, "_-_"@, 2) && takes(e, x, y, s, replies, n) ==> r == earlier
        }),
{
    every_operator_has_its_name(""@);
}

/// The difference of two timestamps that lie in no leap second is the duration from the
/// right one to the left one.
pub proof fn timestamps_are_subtracted(
    e: Expression,
    t: Instant,
    u: Instant,
    s: ScopeV,
    replies: Seq<ReplyV>,
    n: nat,
)
    requires
        calls(e, "_-_"@, 2),
        takes(e, Val::Timestamp(t), Val::Timestamp(u), s, replies, n),
        !t.leap,
        !u.leap,
    ensures
        eval(e, s, replies, n).0 == EvalV::Done(Val::Duration(t.nanos - u.nanos)),
{
    every_operator_has_its_name(""@);
}

/// `+` puts two lists, strings or byte strings together, the left one first.
pub proof fn sequences_are_put_together(
    e: Expression,
    a: Val,
    b: Val,
    s: ScopeV,
    replies: Seq<ReplyV>,
    n: nat,
)
    requires
        calls(e, "_+_"@, 2),
        takes(e, a, b, s, replies, n),
    ensures
        ({
            let r = eval(e, s, replies, n).0;
            match (a, b) {
                (Val::List(x), Val::List(y)) => r == EvalV::Done(Val::List(x + y)),
                (Val::Str(x), Val::Str(y)) => r == EvalV::Done(Val::Str(x + y)),
                (Val::Bytes(x), Val::Bytes(y)) => r == EvalV::Done(Val::Bytes(x + y)),
                _ => true,
            }
        }),
{
    every_operator_has_its_name(""@);
}

/// `+`, `-`, `*` and `/` on two doubles ask the program for the operation on them, the
/// left one first, and end as it replies. Doubles have no remainder.
pub proof fn doubles_are_computed_by_the_program(
    e: Expression,
    x: u64,
    y: u64,
    s: ScopeV,
    replies: Seq<ReplyV>,
    n: nat,
)
    requires
        takes(e, Val::Double(x), Val::Double(y), s, replies, n),
    ensures
        ({
            let r = eval(e, s, replies, n);
            let m = taken(e, s, replies, n);
            let asked = |op: BinOp|
                if m >= replies.len() {
                    (EvalV::Ask(RequestV::Double(op, x, y)), m)
                } else {
                    (
                        match replies[m as int] {
                            ReplyV::Value(v) => EvalV::Done(v),
                            ReplyV::Failed(f) => EvalV::Fail(f),
                            ReplyV::Declined => EvalV::Fail(ErrV::NoSuchOverload),
                        },
                        m + 1,
                    )
                };
            &&& calls(e, "_+_"@, 2) ==> r == asked(BinOp::Add)
            &&& calls(e, "_-_"@, 2) ==> r == asked(BinOp::Sub)
            &&& calls(e, "_*_"@, 2) ==> r == asked(BinOp::Mul)
            &&& calls(e, "_/_"@, 2) ==> r == asked(BinOp::Div)
            &&& calls(e, "_%_"@, 2) ==> r == (
                EvalV::Fail(
                    ErrV::UnsupportedBinaryOperator("rem"@, Val::Double(x), Val::Double(y)),
                ),
                m,
            )
        }),
{
    every_operator_has_its_name(""@);
}

/// Whether an operator is defined on two values.
pub open spec fn computes(op: BinOp, a: Val, b: Val) -> bool {
    match (a, b) {
        (Val::Int(_), Val::Int(_)) | (Val::UInt(_), Val::UInt(_)) => true,
        (Val::Double(_), Val::Double(_)) => op != BinOp::Rem,
        (Val::Duration(_), Val::Duration(_)) | (Val::Timestamp(_), Val::Duration(_)) => {
            op == BinOp::Add || op == BinOp::Sub
        },
        (Val::Duration(_), Val::Timestamp(_)) => op == BinOp::Add,
        (Val::Timestamp(_), Val::Timestamp(_)) => op == BinOp::Sub,
        (Val::List(_), Val::List(_)) | (Val::Str(_), Val::Str(_)) | (Val::Bytes(_), Val::Bytes(_)) => {
            op == BinOp::Add
        },
        _ => false,
    }
}

/// An operator refuses what it is not defined on: with no such overload where the left
/// operand is an `int`, a list under `+` or a duration under `-`, and with the name of
/// the operator and both operands everywhere else.
pub proof fn the_arithmetic_operators_refuse(op: BinOp, a: Val, b: Val)
    requires
        !computes(op, a, b),
    ensures
        binary(op, a, b) == OutV::Done(
            Err(
                if a is Int || a is List && op == BinOp::Add || a is Duration && op == BinOp::Sub {
                    ErrV::NoSuchOverload
                } else {
                    ErrV::UnsupportedBinaryOperator(
                        match op {
                            BinOp::Add => "add"@,
                            BinOp::Sub => "sub"@,
                            BinOp::Mul => "mul"@,
                            BinOp::Div => "div"@,
                            BinOp::Rem => "rem"@,
                        },
                        a,
                        b,
                    )
                },
            ),
        ),
{
}

/// An operator that needs its operands ends as the first of them ends that has no value.
pub proof fn operands_come_before_their_operator(
    e: Expression,
    s: ScopeV,
    replies: Seq<ReplyV>,
    n: nat,
)
    requires
        calls(e, "_+_"@, 2) || calls(e, "_-_"@, 2) || calls(e, "_*_"@, 2) || calls(e, "_/_"@, 2)
            || calls(e, "_%_"@, 2) || calls(e, "_<_"@, 2) || calls(e, "_<=_"@, 2) || calls(
            e,
            "_>_"@,
            2,
        ) || calls(e, "_>=_"@, 2) || calls(e, "_==_"@, 2) || calls(e, "_!=_"@, 2) || calls(
            e,
            "@in"@,
            2,
        ) || calls(e, "_?._"@, 2),
    ensures
        ({
            let (l, p) = eval(arg(e, 0), s, replies, n);
            let (r, q) = eval(arg(e, 1), s, replies, p);
            &&& !(l is Done) ==> eval(e, s, replies, n) == (l, p)
            &&& l is Done && !(r is Done) ==> eval(e, s, replies, n) == (r, q)
        }),
{
    every_operator_has_its_name(""@);
}

/// Unary minus gives the opposite number or duration, flips the sign of a double and the
/// truth of a boolean. The least `int` has no opposite, and nothing else has one.
pub proof fn the_opposite_is_taken(
    e: Expression,
    v: Val,
    s: ScopeV,
    replies: Seq<ReplyV>,
    n: nat,
)
    requires
        calls(e, "-_"@, 1),
        eval(arg(e, 0), s, replies, n).0 == EvalV::Done(v),
    ensures
        ({
            let r = eval(e, s, replies, n).0;
            match v {
                Val::Int(i) => if i == -0x8000_0000_0000_0000 {
                    r == EvalV::Fail(ErrV::Overflow("negate"@, v, Val::Int(0)))
                } else {
                    r matches EvalV::Done(Val::Int(j)) && i + j == 0
                },
                Val::Double(d) => r matches EvalV::Done(Val::Double(x)) && size(x - d)
                    == 0x8000_0000_0000_0000,
                Val::Bool(b) => r == EvalV::Done(Val::Bool(!b)),
                Val::Duration(d) => r matches EvalV::Done(Val::Duration(x)) && d + x == 0,
                _ => r == EvalV::Fail(ErrV::NoSuchOverload),
            }
        }),
{
    every_operator_has_its_name(""@);
}

/// `!` is true of `false` and false of `true`, and of nothing else.
pub proof fn the_negation_is_taken(
    e: Expression,
    v: Val,
    s: ScopeV,
    replies: Seq<ReplyV>,
    n: nat,
)
    requires
        calls(e, "!_"@, 1),
        eval(arg(e, 0), s, replies, n).0 == EvalV::Done(v),
    ensures
        eval(e, s, replies, n).0 == match v {
            Val::Bool(b) => EvalV::Done(Val::Bool(!b)),
            _ => EvalV::Fail(ErrV::NoSuchOverload),
        },
{
    every_operator_has_its_name(""@);
}

/// An operator of one operand ends as its operand ends that has no value; what a
/// comprehension asks before each step is true of an error, and of what is no boolean.
pub proof fn an_operand_comes_before_its_operator(
    e: Expression,
    s: ScopeV,
    replies: Seq<ReplyV>,
    n: nat,
)
    ensures
        ({
            let (v, p) = eval(arg(e, 0), s, replies, n);
            let r = eval(e, s, replies, n);
            &&& (calls(e, "-_"@, 1) || calls(e, "!_"@, 1)) && !(v is Done) ==> r == (v, p)
            &&& calls(e, "@not_strictly_false"@, 1) ==> r == (
                match v {
                    EvalV::Done(Val::Bool(b)) => EvalV::Done(Val::Bool(b)),
                    EvalV::Ask(q) => EvalV::Ask(q),
                    _ => EvalV::Done(Val::Bool(true)),
                },
                p,
            )
        }),
{
    every_operator_has_its_name(""@);
}

} // verus!
