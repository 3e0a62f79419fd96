//! What an expression evaluates to.
//!
//! Evaluation is a function of the expression, the names in sight, and the
//! replies of the embedding program to what is asked of it: functions, struct
//! types and the arithmetic of doubles are its own. The replies are taken in
//! order. Where they run out, evaluation ends with the next request; evaluated
//! again with one more reply, it goes on from there.
//!
//! A variable of the program may be held as a leaf of the runtime. What `==`, `!=`,
//! `in` and `?.` make of it is then what the runtime makes of the leaf; to all else a
//! leaf is the value that it stands for.

use crate::access::{held_contains, held_has_field};
use crate::ast::{
    is_ident, literal_val, operator, CallExpr, ComprehensionExpr, EntryExpr, Expr, Expression,
    ListExpr, LiteralValue, Operator, StructExpr,
};
use crate::compare::held_eq;
use crate::context::ScopeV;
use crate::model::{binary, compare, field, insert_entry, is_key, negate, BinOp, ErrV, OutV, Val};
use crate::runtime::object::W_Root;
use crate::runtime::interned::{held_index, held_items, in_public, HeldV};
use vstd::prelude::*;

verus! {

/// What evaluation asks of the embedding program.
pub enum RequestV {
    /// Call the overload of a function that takes these arguments.
    Overload(Seq<char>, Seq<Val>),
    /// Call a function.
    Function(Seq<char>, Seq<Val>),
    /// Call the overload of a function in a namespace that takes these arguments.
    QualifiedOverload(Seq<char>, Seq<char>, Seq<Val>),
    /// Call a function in a namespace.
    QualifiedFunction(Seq<char>, Seq<char>, Seq<Val>),
    /// Call the overload of a method that takes the receiver and the arguments,
    /// the receiver first.
    MemberOverload(Seq<char>, Seq<Val>),
    /// Call a function as a method of the receiver.
    MemberFunction(Seq<char>, Val, Seq<Val>),
    /// Carry out an operation on two doubles.
    Double(BinOp, u64, u64),
    /// Say whether there is a struct type of that name.
    StructType(Seq<char>),
    /// Build a struct from its fields.
    NewStruct(Seq<char>, Seq<(Val, Val)>),
    /// Evaluate a part that is not specified, or a field in a map literal. No parser
    /// produces one, nothing answers for it, and evaluation does not go past it.
    Unspecified,
}

/// What the embedding program replies.
pub enum ReplyV {
    /// It has nothing of that name, or none that takes the arguments.
    Declined,
    Value(Val),
    Failed(ErrV),
}

/// How far an evaluation gets.
pub enum EvalV {
    Done(Val),
    Fail(ErrV),
    Ask(RequestV),
}

/// How far the evaluation of several expressions gets.
pub enum ArgsV {
    Done(Seq<Val>),
    Fail(ErrV),
    Ask(RequestV),
}

/// How far the evaluation of entries gets.
pub enum EntriesV {
    Done(Seq<(Val, Val)>),
    Fail(ErrV),
    Ask(RequestV),
}

/// How far a loop gets.
pub enum LoopV {
    Done(ScopeV),
    Fail(ErrV),
    Ask(RequestV),
}

/// How far an appending loop gets.
pub enum AppendV {
    Done(Seq<Val>, ScopeV),
    Fail(ErrV),
    Ask(RequestV),
}

/// The reply to a request, and what is left of the replies; `declined` where the
/// program declines.
pub open spec fn ask(req: RequestV, replies: Seq<ReplyV>, n: nat, declined: EvalV) -> (EvalV, nat) {
    if n >= replies.len() {
        (EvalV::Ask(req), n)
    } else {
        match replies[n as int] {
            ReplyV::Declined => (declined, n + 1),
            ReplyV::Value(v) => (EvalV::Done(v), n + 1),
            ReplyV::Failed(e) => (EvalV::Fail(e), n + 1),
        }
    }
}

/// Whether the next reply declines.
pub open spec fn declines(replies: Seq<ReplyV>, n: nat) -> bool {
    n < replies.len() && replies[n as int] is Declined
}

/// A call of a function: the overload that takes the arguments, else the function.
pub open spec fn call_function(name: Seq<char>, args: Seq<Val>, replies: Seq<ReplyV>, n: nat) -> (
    EvalV,
    nat,
) {
    if declines(replies, n) {
        ask(
            RequestV::Function(name, args),
            replies,
            n + 1,
            EvalV::Fail(ErrV::UndeclaredReference(name)),
        )
    } else {
        ask(RequestV::Overload(name, args), replies, n, EvalV::Fail(ErrV::NoSuchOverload))
    }
}

/// A call of a method: the overload that takes the receiver and the arguments,
/// else the function.
pub open spec fn call_member(
    name: Seq<char>,
    target: Val,
    args: Seq<Val>,
    replies: Seq<ReplyV>,
    n: nat,
) -> (EvalV, nat) {
    if declines(replies, n) {
        ask(
            RequestV::MemberFunction(name, target, args),
            replies,
            n + 1,
            EvalV::Fail(ErrV::UndeclaredReference(name)),
        )
    } else {
        ask(
            RequestV::MemberOverload(name, seq![target] + args),
            replies,
            n,
            EvalV::Fail(ErrV::NoSuchOverload),
        )
    }
}

/// A value that has to be a boolean.
pub open spec fn to_bool(r: EvalV) -> EvalV {
    match r {
        EvalV::Done(Val::Bool(b)) => r,
        EvalV::Done(_) => EvalV::Fail(ErrV::NoSuchOverload),
        _ => r,
    }
}

/// A result as far as an evaluation gets.
pub open spec fn from_result(r: Result<Val, ErrV>) -> EvalV {
    match r {
        Ok(v) => EvalV::Done(v),
        Err(e) => EvalV::Fail(e),
    }
}

/// `&&` and `||` on their evaluated left side and their right side. `absorbing` is
/// the boolean that decides the operator alone: `false` for `&&`, `true` for `||`.
/// A right side that decides it makes up for an error on the left.
pub open spec fn logical(absorbing: bool, left: EvalV, right: EvalV) -> EvalV {
    match right {
        EvalV::Done(r) => match left {
            EvalV::Done(_) => match r {
                Val::Bool(b) => EvalV::Done(Val::Bool(b)),
                _ => EvalV::Fail(ErrV::NoSuchOverload),
            },
            _ => if r == Val::Bool(absorbing) {
                EvalV::Done(r)
            } else {
                left
            },
        },
        _ => right,
    }
}

/// The indexing operators on an evaluated container and key. What an optional holds is
/// indexed optionally.
pub open(crate) spec fn index_result(
    optional: bool,
    c: Val,
    leaf: Option<W_Root>,
    k: Val,
) -> EvalV {
    let found = match c {
        Val::Optional(Some(inner)) => held_index(*inner, None, k),
        _ => held_index(c, leaf, k),
    };
    match found {
        Ok(h) => EvalV::Done(
            if optional || c is Optional {
                Val::Optional(Some(Box::new(h.val)))
            } else {
                h.val
            },
        ),
        Err(e) => if optional || c is Optional {
            EvalV::Done(Val::Optional(None))
        } else {
            EvalV::Fail(e)
        },
    }
}

/// The leaf that an element is, where a container that is held as a leaf is indexed.
pub open(crate) spec fn index_leaf(c: Val, leaf: Option<W_Root>, k: Val) -> Option<W_Root> {
    match held_index(c, leaf, k) {
        Ok(h) if !(c is Optional) => h.leaf,
        _ => None,
    }
}

/// The selection `c.name`.
pub open(crate) spec fn field_result(c: Val, leaf: Option<W_Root>, name: Seq<char>) -> EvalV {
    match held_index(c, leaf, Val::Str(name)) {
        Ok(h) => EvalV::Done(h.val),
        Err(e) => EvalV::Fail(e),
    }
}

/// The leaf that a field is, where it is selected from a container that is held as one.
pub open(crate) spec fn field_leaf(c: Val, leaf: Option<W_Root>, name: Seq<char>) -> Option<
    W_Root,
> {
    match held_index(c, leaf, Val::Str(name)) {
        Ok(h) => h.leaf,
        Err(_) => None,
    }
}

/// The optional selection `operand?.name`. The name is a string in public form.
pub open(crate) spec fn opt_select(
    operand: Val,
    leaf: Option<W_Root>,
    name: Val,
    name_is_leaf: bool,
) -> EvalV {
    match name {
        Val::Str(_) if !name_is_leaf => match operand {
            Val::Optional(None) => EvalV::Done(Val::Optional(None)),
            Val::Optional(Some(inner)) => EvalV::Done(
                Val::Optional(
                    Some(
                        Box::new(
                            match held_index(*inner, None, name) {
                                Ok(h) => h.val,
                                Err(_) => Val::Optional(None),
                            },
                        ),
                    ),
                ),
            ),
            _ => match held_index(operand, leaf, name) {
                Ok(h) => EvalV::Done(Val::Optional(Some(Box::new(h.val)))),
                Err(e) => EvalV::Fail(e),
            },
        },
        _ => EvalV::Fail(ErrV::FunctionError("_?._"@, "field must be string"@)),
    }
}

/// What an element or entry written as optional contributes: what it holds, or
/// nothing.
pub open spec fn contributed(optional: bool, v: Val) -> Option<Val> {
    if optional {
        match v {
            Val::Optional(None) => None,
            Val::Optional(Some(inner)) => Some(*inner),
            _ => Some(v),
        }
    } else {
        Some(v)
    }
}

// ---------------------------------------------------------------------------
// The shapes of comprehension that `map`, `filter`, `all` and `exists` expand to.

/// The function name of a call.
pub open spec fn callee(e: Expression) -> Operator {
    match e.expr {
        Expr::Call(c) => operator(c.func_name@),
        _ => Operator::Function,
    }
}

/// The number of arguments of a call.
pub open spec fn arg_count(e: Expression) -> nat {
    match e.expr {
        Expr::Call(c) => c.args@.len(),
        _ => 0,
    }
}

/// An argument of a call.
pub open spec fn arg(e: Expression, i: int) -> Expression {
    match e.expr {
        Expr::Call(c) => c.args@[i],
        _ => arbitrary(),
    }
}

/// Whether the step is `c ? s : @result`.
pub open spec fn is_guarded(c: ComprehensionExpr) -> bool {
    callee(c.loop_step) == Operator::Conditional && arg_count(c.loop_step) == 3 && is_ident(
        arg(c.loop_step, 2),
        c.accu_var@,
    )
}

/// Whether the expression is `[x]`, with `x` not optional.
pub open spec fn is_singleton(e: Expression) -> bool {
    match e.expr {
        Expr::List(l) => l.elements@.len() == 1 && l.optional_indices@.len() == 0,
        _ => false,
    }
}

/// The `x` of `[x]`.
pub open spec fn singleton_element(e: Expression) -> Expression {
    match e.expr {
        Expr::List(l) => l.elements@[0],
        _ => arbitrary(),
    }
}

/// Whether the expression is `@result + [x]`.
pub open spec fn is_append(e: Expression, accu: Seq<char>) -> bool {
    callee(e) == Operator::Arith(BinOp::Add) && arg_count(e) == 2 && is_ident(arg(e, 0), accu)
        && is_singleton(arg(e, 1))
}

/// The part of the step that appends.
pub open spec fn append_step(c: ComprehensionExpr) -> Expression {
    if is_guarded(c) {
        arg(c.loop_step, 1)
    } else {
        c.loop_step
    }
}

/// Whether the comprehension appends one element per step, as `map` and `filter`
/// do: its condition is `true`, and its step is `@result + [x]` or
/// `c ? @result + [x] : @result`.
pub open spec fn appends(c: ComprehensionExpr) -> bool {
    &&& c.loop_cond.expr matches Expr::Literal(LiteralValue::Boolean(b)) && b
    &&& is_append(append_step(c), c.accu_var@)
}

/// Whether the comprehension folds its predicate with the operator: `&&` for
/// `all`, `||` for `exists`, stopping when the operator is decided.
pub open spec fn folds(c: ComprehensionExpr, and: bool) -> bool {
    let op = if and {
        Operator::LogicalAnd
    } else {
        Operator::LogicalOr
    };
    &&& is_ident(c.result, c.accu_var@)
    &&& callee(c.loop_step) == op
    &&& arg_count(c.loop_step) == 2
    &&& is_ident(arg(c.loop_step, 0), c.accu_var@)
    &&& callee(c.loop_cond) == Operator::NotStrictlyFalse
    &&& arg_count(c.loop_cond) == 1
    &&& if and {
        is_ident(arg(c.loop_cond, 0), c.accu_var@)
    } else {
        callee(arg(c.loop_cond, 0)) == Operator::LogicalNot && arg_count(arg(c.loop_cond, 0)) == 1
            && is_ident(arg(arg(c.loop_cond, 0), 0), c.accu_var@)
    }
}

// ---------------------------------------------------------------------------
// Evaluation.

/// The values so far and the next one.
pub open spec fn push_arg(vs: Seq<Val>, r: EvalV) -> ArgsV {
    match r {
        EvalV::Done(v) => ArgsV::Done(vs.push(v)),
        EvalV::Fail(e) => ArgsV::Fail(e),
        EvalV::Ask(q) => ArgsV::Ask(q),
    }
}

/// The elements so far and what the next one contributes.
pub open spec fn push_element(vs: Seq<Val>, optional: bool, r: EvalV) -> ArgsV {
    match r {
        EvalV::Done(v) => ArgsV::Done(
            match contributed(optional, v) {
                Some(x) => vs.push(x),
                None => vs,
            },
        ),
        EvalV::Fail(e) => ArgsV::Fail(e),
        EvalV::Ask(q) => ArgsV::Ask(q),
    }
}

/// The entries so far and what the next one contributes under its key.
pub open spec fn push_entry(vs: Seq<(Val, Val)>, key: Val, optional: bool, r: EvalV) -> EntriesV {
    match r {
        EvalV::Done(v) => EntriesV::Done(
            match contributed(optional, v) {
                Some(y) => insert_entry(vs, key, y),
                None => vs,
            },
        ),
        EvalV::Fail(e) => EntriesV::Fail(e),
        EvalV::Ask(q) => EntriesV::Ask(q),
    }
}

/// Entries that end with a key that is none, or that has no value.
pub open spec fn no_entry(key: EvalV) -> EntriesV {
    match key {
        EvalV::Done(x) => EntriesV::Fail(ErrV::UnsupportedKeyType(x)),
        EvalV::Fail(e) => EntriesV::Fail(e),
        EvalV::Ask(q) => EntriesV::Ask(q),
    }
}

/// The first `k` arguments, in turn.
pub open spec fn eval_args(
    args: Seq<Expression>,
    k: nat,
    s: ScopeV,
    replies: Seq<ReplyV>,
    n: nat,
) -> (ArgsV, nat)
    decreases args, k,
{
    if k == 0 || k > args.len() {
        (ArgsV::Done(Seq::empty()), n)
    } else {
        let (prev, m) = eval_args(args, (k - 1) as nat, s, replies, n);
        match prev {
            ArgsV::Done(vs) => {
                let (r, p) = eval(args[k - 1], s, replies, m);
                (push_arg(vs, r), p)
            },
            _ => (prev, m),
        }
    }
}

/// The first `k` elements of a list literal, in turn.
pub open spec fn eval_elements(
    l: ListExpr,
    k: nat,
    s: ScopeV,
    replies: Seq<ReplyV>,
    n: nat,
) -> (ArgsV, nat)
    decreases l, k,
{
    if k == 0 || k > l.elements@.len() {
        (ArgsV::Done(Seq::empty()), n)
    } else {
        let (prev, m) = eval_elements(l, (k - 1) as nat, s, replies, n);
        match prev {
            ArgsV::Done(vs) => {
                let (r, p) = eval(l.elements@[k - 1], s, replies, m);
                (push_element(vs, l.optional_indices@.contains((k - 1) as usize), r), p)
            },
            _ => (prev, m),
        }
    }
}

/// The first `k` entries of a map literal, stored in turn.
pub open spec fn eval_entries(
    entries: Seq<EntryExpr>,
    k: nat,
    s: ScopeV,
    replies: Seq<ReplyV>,
    n: nat,
) -> (EntriesV, nat)
    decreases entries, k,
{
    if k == 0 || k > entries.len() {
        (EntriesV::Done(Seq::empty()), n)
    } else {
        let (prev, m) = eval_entries(entries, (k - 1) as nat, s, replies, n);
        match (prev, entries[k - 1]) {
            (EntriesV::Done(vs), EntryExpr::StructField { .. }) => (
                EntriesV::Ask(RequestV::Unspecified),
                m,
            ),
            (EntriesV::Done(vs), EntryExpr::MapEntry { key, value, optional }) => {
                let (x, p) = eval(key, s, replies, m);
                match x {
                    EvalV::Done(kv) => if is_key(kv) {
                        let (r, q) = eval(value, s, replies, p);
                        (push_entry(vs, kv, optional, r), q)
                    } else {
                        (no_entry(x), p)
                    },
                    _ => (no_entry(x), p),
                }
            },
            _ => (prev, m),
        }
    }
}

/// The first `k` fields of a struct literal, stored in turn.
pub open spec fn eval_fields(
    entries: Seq<EntryExpr>,
    k: nat,
    s: ScopeV,
    replies: Seq<ReplyV>,
    n: nat,
) -> (EntriesV, nat)
    decreases entries, k,
{
    if k == 0 || k > entries.len() {
        (EntriesV::Done(Seq::empty()), n)
    } else {
        let (prev, m) = eval_fields(entries, (k - 1) as nat, s, replies, n);
        match prev {
            EntriesV::Done(vs) => match entries[k - 1] {
                EntryExpr::StructField { field, value, optional } => {
                    let (r, p) = eval(value, s, replies, m);
                    (push_entry(vs, Val::Str(field@), false, r), p)
                },
                EntryExpr::MapEntry { .. } => (
                    EntriesV::Fail(ErrV::InternalError("Expected struct_field_expr"@)),
                    m,
                ),
            },
            _ => (prev, m),
        }
    }
}

/// The steps from item `i` on of a comprehension that appends.
pub open spec fn eval_append(
    c: ComprehensionExpr,
    items: Seq<HeldV>,
    i: nat,
    acc: Seq<Val>,
    s: ScopeV,
    replies: Seq<ReplyV>,
    n: nat,
) -> (AppendV, nat)
    decreases c, 0nat, items.len() - i,
{
    if i >= items.len() || !appends(c) {
        (AppendV::Done(acc, s), n)
    } else {
        let inner = s.bind(c.iter_var@, items[i as int]);
        let (g, p) = if is_guarded(c) {
            let (r, q) = eval(arg(c.loop_step, 0), inner, replies, n);
            (to_bool(r), q)
        } else {
            (EvalV::Done(Val::Bool(true)), n)
        };
        match g {
            EvalV::Done(b) => if b == Val::Bool(true) {
                let (r, q) = eval(
                    singleton_element(arg(append_step(c), 1)),
                    inner,
                    replies,
                    p,
                );
                match r {
                    EvalV::Done(v) => eval_append(c, items, i + 1, acc.push(v), inner, replies, q),
                    EvalV::Fail(e) => (AppendV::Fail(e), q),
                    EvalV::Ask(a) => (AppendV::Ask(a), q),
                }
            } else {
                eval_append(c, items, i + 1, acc, inner, replies, p)
            },
            EvalV::Fail(e) => (AppendV::Fail(e), p),
            EvalV::Ask(a) => (AppendV::Ask(a), p),
        }
    }
}

/// The steps from item `i` on of a comprehension that folds its predicate.
pub open spec fn eval_fold(
    c: ComprehensionExpr,
    and: bool,
    items: Seq<HeldV>,
    i: nat,
    accu: bool,
    s: ScopeV,
    replies: Seq<ReplyV>,
    n: nat,
) -> (EvalV, nat)
    decreases c, 0nat, items.len() - i,
{
    if i >= items.len() || accu != and || !folds(c, and) {
        (EvalV::Done(Val::Bool(accu)), n)
    } else {
        let inner = s.bind(c.iter_var@, items[i as int]);
        let (r, p) = eval(arg(c.loop_step, 1), inner, replies, n);
        match to_bool(r) {
            EvalV::Done(Val::Bool(b)) => eval_fold(c, and, items, i + 1, b, inner, replies, p),
            other => (other, p),
        }
    }
}

/// The steps from item `i` on of any comprehension.
pub open spec fn eval_loop(
    c: ComprehensionExpr,
    items: Seq<HeldV>,
    i: nat,
    s: ScopeV,
    replies: Seq<ReplyV>,
    n: nat,
) -> (LoopV, nat)
    decreases c, 0nat, items.len() - i,
{
    if i >= items.len() {
        (LoopV::Done(s), n)
    } else {
        let (r, p) = eval(c.loop_cond, s, replies, n);
        match to_bool(r) {
            EvalV::Done(Val::Bool(go)) => if !go {
                (LoopV::Done(s), p)
            } else {
                let inner = s.bind(c.iter_var@, items[i as int]);
                let (r2, q) = eval(c.loop_step, inner, replies, p);
                match r2 {
                    EvalV::Done(v) => eval_loop(
                        c,
                        items,
                        i + 1,
                        inner.bind(c.accu_var@, in_public(v)),
                        replies,
                        q,
                    ),
                    EvalV::Fail(e) => (LoopV::Fail(e), q),
                    EvalV::Ask(a) => (LoopV::Ask(a), q),
                }
            },
            EvalV::Done(_) => (LoopV::Fail(ErrV::NoSuchOverload), p),
            EvalV::Fail(e) => (LoopV::Fail(e), p),
            EvalV::Ask(a) => (LoopV::Ask(a), p),
        }
    }
}

/// A comprehension on its evaluated start and range.
pub open spec fn eval_steps(
    c: ComprehensionExpr,
    init: Val,
    items: Seq<HeldV>,
    s: ScopeV,
    replies: Seq<ReplyV>,
    n: nat,
) -> (EvalV, nat)
    decreases c, 1nat,
{
    if appends(c) && init is List {
        let (r, p) = eval_append(c, items, 0, Seq::empty(), s, replies, n);
        match r {
            AppendV::Done(list, inner) => eval(
                c.result,
                inner.bind(c.accu_var@, in_public(Val::List(list))),
                replies,
                p,
            ),
            AppendV::Fail(e) => (EvalV::Fail(e), p),
            AppendV::Ask(a) => (EvalV::Ask(a), p),
        }
    } else if folds(c, true) || folds(c, false) {
        match init {
            Val::Bool(b) => eval_fold(c, folds(c, true), items, 0, b, s, replies, n),
            _ => (EvalV::Fail(ErrV::NoSuchOverload), n),
        }
    } else {
        let (r, p) = eval_loop(c, items, 0, s.bind(c.accu_var@, in_public(init)), replies, n);
        match r {
            LoopV::Done(inner) => eval(c.result, inner, replies, p),
            LoopV::Fail(e) => (EvalV::Fail(e), p),
            LoopV::Ask(a) => (EvalV::Ask(a), p),
        }
    }
}

/// A comprehension.
pub open spec fn eval_comprehension(
    c: ComprehensionExpr,
    s: ScopeV,
    replies: Seq<ReplyV>,
    n: nat,
) -> (EvalV, nat)
    decreases c, 2nat,
{
    let (init, p) = eval(c.accu_init, s, replies, n);
    match init {
        EvalV::Done(start) => {
            let (range, q) = eval(c.iter_range, s, replies, p);
            match range {
                EvalV::Done(v) => match held_items(v, eval_leaf(c.iter_range, s, replies, p)) {
                    Ok(items) => eval_steps(c, start, items, s, replies, q),
                    Err(e) => (EvalV::Fail(e), q),
                },
                _ => (range, q),
            }
        },
        _ => (init, p),
    }
}

/// The leaf that a comprehension's result is held as, on its evaluated start and range.
pub open spec fn eval_steps_leaf(
    c: ComprehensionExpr,
    init: Val,
    items: Seq<HeldV>,
    s: ScopeV,
    replies: Seq<ReplyV>,
    n: nat,
) -> Option<W_Root>
    decreases c, 1nat,
{
    if appends(c) && init is List {
        let (r, p) = eval_append(c, items, 0, Seq::empty(), s, replies, n);
        match r {
            AppendV::Done(list, inner) => eval_leaf(
                c.result,
                inner.bind(c.accu_var@, in_public(Val::List(list))),
                replies,
                p,
            ),
            _ => None,
        }
    } else if folds(c, true) || folds(c, false) {
        None
    } else {
        let (r, p) = eval_loop(c, items, 0, s.bind(c.accu_var@, in_public(init)), replies, n);
        match r {
            LoopV::Done(inner) => eval_leaf(c.result, inner, replies, p),
            _ => None,
        }
    }
}

/// The leaf that a comprehension's result is held as.
pub open spec fn eval_comprehension_leaf(
    c: ComprehensionExpr,
    s: ScopeV,
    replies: Seq<ReplyV>,
    n: nat,
) -> Option<W_Root>
    decreases c, 2nat,
{
    let (init, p) = eval(c.accu_init, s, replies, n);
    match init {
        EvalV::Done(start) => {
            let (range, q) = eval(c.iter_range, s, replies, p);
            match range {
                EvalV::Done(v) => match held_items(v, eval_leaf(c.iter_range, s, replies, p)) {
                    Ok(items) => eval_steps_leaf(c, start, items, s, replies, q),
                    Err(_) => None,
                },
                _ => None,
            }
        },
        _ => None,
    }
}

/// A struct literal: its type must be known, and the program builds the value.
pub open spec fn eval_struct(st: StructExpr, s: ScopeV, replies: Seq<ReplyV>, n: nat) -> (
    EvalV,
    nat,
)
    decreases st, 0nat,
{
    if n >= replies.len() {
        (EvalV::Ask(RequestV::StructType(st.type_label@)), n)
    } else if declines(replies, n) {
        (EvalV::Fail(ErrV::UnexpectedType(st.type_label@, "known struct"@)), n + 1)
    } else {
        let (r, p) = eval_fields(st.entries@, st.entries@.len(), s, replies, n + 1);
        match r {
            EntriesV::Done(fs) => ask(
                RequestV::NewStruct(st.type_label@, fs),
                replies,
                p,
                EvalV::Fail(ErrV::NoSuchOverload),
            ),
            EntriesV::Fail(e) => (EvalV::Fail(e), p),
            EntriesV::Ask(q) => (EvalV::Ask(q), p),
        }
    }
}

/// A call that is no operator, or an operator with the wrong number of arguments.
pub open spec fn eval_call(call: CallExpr, s: ScopeV, replies: Seq<ReplyV>, n: nat) -> (EvalV, nat)
    decreases call, 0nat,
{
    let (args, m) = eval_args(call.args@, call.args@.len(), s, replies, n);
    match args {
        ArgsV::Fail(e) => (EvalV::Fail(e), m),
        ArgsV::Ask(q) => (EvalV::Ask(q), m),
        ArgsV::Done(vs) => match call.target {
            None => call_function(call.func_name@, vs, replies, m),
            Some(target) => {
                let prefixed = match target.expr {
                    Expr::Ident(prefix) => !s.locals.dom().contains(prefix@),
                    _ => false,
                };
                let prefix = match target.expr {
                    Expr::Ident(prefix) => prefix@,
                    _ => Seq::empty(),
                };
                if prefixed && !declines(replies, m) {
                    ask(
                        RequestV::QualifiedOverload(prefix, call.func_name@, vs),
                        replies,
                        m,
                        EvalV::Fail(ErrV::NoSuchOverload),
                    )
                } else if prefixed && !declines(replies, m + 1) {
                    ask(
                        RequestV::QualifiedFunction(prefix, call.func_name@, vs),
                        replies,
                        m + 1,
                        EvalV::Fail(ErrV::NoSuchOverload),
                    )
                } else {
                    let start = if prefixed {
                        m + 2
                    } else {
                        m
                    };
                    let (t, p) = eval(*target, s, replies, start);
                    match t {
                        EvalV::Done(v) => call_member(call.func_name@, v, vs, replies, p),
                        _ => (t, p),
                    }
                }
            },
        },
    }
}

/// A binary operator on its evaluated operands, given the leaves that they are held as.
pub open spec fn apply2(
    op: Operator,
    l: Val,
    l_leaf: Option<W_Root>,
    r: Val,
    r_leaf: Option<W_Root>,
    replies: Seq<ReplyV>,
    n: nat,
) -> (EvalV, nat) {
    match op {
        Operator::Equals => (EvalV::Done(Val::Bool(held_eq(l, l_leaf, r, r_leaf))), n),
        Operator::NotEquals => (EvalV::Done(Val::Bool(!held_eq(l, l_leaf, r, r_leaf))), n),
        Operator::In => (
            match held_contains(r, r_leaf, l, l_leaf) {
                Ok(b) => EvalV::Done(Val::Bool(b)),
                Err(e) => EvalV::Fail(e),
            },
            n,
        ),
        Operator::OptSelect => (opt_select(l, l_leaf, r, r_leaf is Some), n),
        Operator::Arith(a) => match binary(a, l, r) {
            OutV::Done(res) => (from_result(res), n),
            OutV::Double(d, x, y) => ask(
                RequestV::Double(d, x, y),
                replies,
                n,
                EvalV::Fail(ErrV::NoSuchOverload),
            ),
        },
        Operator::Ordered(c) => (from_result(compare(c, l, r)), n),
        _ => (EvalV::Fail(ErrV::NoSuchOverload), n),
    }
}

/// Whether the operator evaluates both operands first.
pub open spec fn is_strict(op: Operator) -> bool {
    op is Equals || op is NotEquals || op is In || op is OptSelect || op is Arith || op is Ordered
}

/// The leaf that the value of an expression is held as, if it is held as one: that of a
/// variable, that which a conditional picks or a comprehension results in, or that which
/// a leaf refers to where it is indexed or a field of it is selected. Any other
/// expression gives a value in public form.
pub open spec fn eval_leaf(e: Expression, s: ScopeV, replies: Seq<ReplyV>, n: nat) -> Option<W_Root>
    decreases e, 0nat,
{
    match e.expr {
        Expr::Ident(name) => s.leaf(name@),
        Expr::Comprehension(c) => eval_comprehension_leaf(*c, s, replies, n),
        Expr::Select(sel) => if sel.test {
            None
        } else {
            match eval(*sel.operand, s, replies, n).0 {
                EvalV::Done(v) => field_leaf(
                    v,
                    eval_leaf(*sel.operand, s, replies, n),
                    sel.field@,
                ),
                _ => None,
            }
        },
        Expr::Call(call) => if call.args@.len() == 3 && operator(call.func_name@) is Conditional {
            let (c, p) = eval(call.args@[0], s, replies, n);
            match to_bool(c) {
                EvalV::Done(b) => if b == Val::Bool(true) {
                    eval_leaf(call.args@[1], s, replies, p)
                } else {
                    eval_leaf(call.args@[2], s, replies, p)
                },
                _ => None,
            }
        } else if call.args@.len() == 2 && operator(call.func_name@) is Index {
            let (c, p) = eval(call.args@[0], s, replies, n);
            match (c, eval(call.args@[1], s, replies, p).0) {
                (EvalV::Done(v), EvalV::Done(x)) => index_leaf(
                    v,
                    eval_leaf(call.args@[0], s, replies, n),
                    x,
                ),
                _ => None,
            }
        } else {
            None
        },
        _ => None,
    }
}

/// How far evaluating an expression gets with these replies, of which `n` are
/// taken already, and how many are taken then.
pub open spec fn eval(e: Expression, s: ScopeV, replies: Seq<ReplyV>, n: nat) -> (EvalV, nat)
    decreases e, 0nat,
{
    match e.expr {
        Expr::Unspecified => (EvalV::Ask(RequestV::Unspecified), n),
        Expr::Literal(l) => (EvalV::Done(literal_val(l)), n),
        Expr::Ident(name) => (
            match s.load(name@) {
                Some(v) => EvalV::Done(v),
                None => EvalV::Fail(ErrV::UndeclaredReference(name@)),
            },
            n,
        ),
        Expr::Select(sel) => {
            let (r, p) = eval(*sel.operand, s, replies, n);
            match r {
                EvalV::Done(v) => (
                    if sel.test {
                        from_result(
                            held_has_field(
                                v,
                                eval_leaf(*sel.operand, s, replies, n),
                                sel.field@,
                            ),
                        )
                    } else {
                        field_result(v, eval_leaf(*sel.operand, s, replies, n), sel.field@)
                    },
                    p,
                ),
                _ => (r, p),
            }
        },
        Expr::List(l) => {
            let (r, p) = eval_elements(l, l.elements@.len(), s, replies, n);
            (
                match r {
                    ArgsV::Done(vs) => EvalV::Done(Val::List(vs)),
                    ArgsV::Fail(e) => EvalV::Fail(e),
                    ArgsV::Ask(q) => EvalV::Ask(q),
                },
                p,
            )
        },
        Expr::CelMap(m) => {
            let (r, p) = eval_entries(m.entries@, m.entries@.len(), s, replies, n);
            (
                match r {
                    EntriesV::Done(vs) => EvalV::Done(Val::CelMap(vs)),
                    EntriesV::Fail(e) => EvalV::Fail(e),
                    EntriesV::Ask(q) => EvalV::Ask(q),
                },
                p,
            )
        },
        Expr::Struct(st) => eval_struct(st, s, replies, n),
        Expr::Comprehension(c) => eval_comprehension(*c, s, replies, n),
        Expr::Call(call) => {
            let op = operator(call.func_name@);
            let k = call.args@.len();
            if k == 3 && op is Conditional {
                let (r, p) = eval(call.args@[0], s, replies, n);
                match to_bool(r) {
                    EvalV::Done(b) => if b == Val::Bool(true) {
                        eval(call.args@[1], s, replies, p)
                    } else {
                        eval(call.args@[2], s, replies, p)
                    },
                    other => (other, p),
                }
            } else if k == 2 && (op is LogicalOr || op is LogicalAnd) {
                let absorbing = op is LogicalOr;
                let (l, p) = eval(call.args@[0], s, replies, n);
                let left = to_bool(l);
                if left is Ask || left == EvalV::Done(Val::Bool(absorbing)) {
                    (left, p)
                } else {
                    let (r, q) = eval(call.args@[1], s, replies, p);
                    (logical(absorbing, left, r), q)
                }
            } else if k == 2 && (op is Index || op is OptIndex) {
                let (c, p) = eval(call.args@[0], s, replies, n);
                match c {
                    EvalV::Done(Val::Optional(None)) => (c, p),
                    EvalV::Done(v) => {
                        let (key, q) = eval(call.args@[1], s, replies, p);
                        match key {
                            EvalV::Done(x) => (
                                index_result(
                                    op is OptIndex,
                                    v,
                                    eval_leaf(call.args@[0], s, replies, n),
                                    x,
                                ),
                                q,
                            ),
                            _ => (key, q),
                        }
                    },
                    _ => (c, p),
                }
            } else if k == 2 && is_strict(op) {
                let (l, p) = eval(call.args@[0], s, replies, n);
                match l {
                    EvalV::Done(lv) => {
                        let (r, q) = eval(call.args@[1], s, replies, p);
                        match r {
                            EvalV::Done(rv) => apply2(
                                op,
                                lv,
                                eval_leaf(call.args@[0], s, replies, n),
                                rv,
                                eval_leaf(call.args@[1], s, replies, p),
                                replies,
                                q,
                            ),
                            _ => (r, q),
                        }
                    },
                    _ => (l, p),
                }
            } else if k == 1 && op is LogicalNot {
                let (r, p) = eval(call.args@[0], s, replies, n);
                (
                    match to_bool(r) {
                        EvalV::Done(b) => EvalV::Done(Val::Bool(b == Val::Bool(false))),
                        other => other,
                    },
                    p,
                )
            } else if k == 1 && op is Negate {
                let (r, p) = eval(call.args@[0], s, replies, n);
                (
                    match r {
                        EvalV::Done(v) => from_result(negate(v)),
                        _ => r,
                    },
                    p,
                )
            } else if k == 1 && op is NotStrictlyFalse {
                let (r, p) = eval(call.args@[0], s, replies, n);
                (
                    match to_bool(r) {
                        EvalV::Fail(_) => EvalV::Done(Val::Bool(true)),
                        other => other,
                    },
                    p,
                )
            } else {
                eval_call(call, s, replies, n)
            }
        },
    }
}

} // verus!
