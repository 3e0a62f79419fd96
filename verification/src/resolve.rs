//! Evaluation of expressions.

use crate::access::{
    as_bool, optional_none, optional_of, optional_view, value_contains, value_field,
    value_has_field, value_index, value_iter, value_key, OptView,
};
use crate::ast::{
    is_variable, operator_of, CallExpr, ComprehensionExpr, EntryExpr, Expr, Expression, ListExpr,
    LiteralValue, Operator, StructExpr,
};
use crate::compare::{compare_values, value_eq};
use crate::context::{root_scope, Context, Scope, ScopeV};
use crate::error::{result_view, ExecutionError, ResolveResult};
use crate::list::{ints_view, values_view, ListRef};
use crate::map::{CelMap, Table, ORDERED_SCAN_LIMIT};
use crate::model::{is_key, negate, BinOp, ErrV, Val};
use crate::ops::{binary_values, value_negate, Outcome};
use crate::runtime::heap::{enter_eval_on, CelHeap};
use crate::runtime::object::W_Root;
use crate::semantics::{
    append_step, appends, apply2, arg, ask, call_function, call_member, contributed, declines, eval,
    eval_append, eval_args, eval_call, eval_comprehension, eval_comprehension_leaf, eval_elements,
    eval_entries, eval_fields, eval_fold, eval_leaf, eval_loop, eval_steps, eval_steps_leaf,
    eval_struct, folds, from_result, index_leaf, index_result, is_guarded, is_strict, logical,
    no_entry, opt_select, push_arg, push_element, push_entry, singleton_element, to_bool, AppendV,
    ArgsV, EntriesV, EvalV, LoopV, ReplyV, RequestV,
};
use crate::value::{held, struct_view, CelStruct, Value};
use std::sync::Arc;
use crate::runtime::interned::{held_items, held_views, in_public, HeldV};
use vstd::prelude::*;

verus! {

/// What evaluation asks of the embedding program.
#[derive(Debug)]
pub enum Request {
    /// Call the overload of a function that takes these arguments.
    Overload { name: String, args: Vec<Value> },
    /// Call a function.
    Function { name: String, args: Vec<Value> },
    /// Call the overload of a function in a namespace that takes these arguments.
    QualifiedOverload { prefix: String, name: String, args: Vec<Value> },
    /// Call a function in a namespace.
    QualifiedFunction { prefix: String, name: String, args: Vec<Value> },
    /// Call the overload of a method that takes the receiver and the arguments,
    /// the receiver first.
    MemberOverload { name: String, args: Vec<Value> },
    /// Call a function as a method of the receiver.
    MemberFunction { name: String, target: Value, args: Vec<Value> },
    /// Carry out an operation on two doubles, given by their bits.
    Double { op: BinOp, lhs: u64, rhs: u64 },
    /// Say whether there is a struct type of that name.
    StructType { name: String },
    /// Build a struct from its fields.
    NewStruct { value: CelStruct },
    /// Evaluate a part that is not specified, or a field in a map literal. No parser
    /// produces one, nothing answers for it, and evaluation does not go past it.
    Unspecified,
}

impl View for Request {
    type V = RequestV;

    open spec fn view(&self) -> RequestV {
        match *self {
            Request::Overload { name, args } => RequestV::Overload(name@, values_view(args@)),
            Request::Function { name, args } => RequestV::Function(name@, values_view(args@)),
            Request::QualifiedOverload { prefix, name, args } => RequestV::QualifiedOverload(
                prefix@,
                name@,
                values_view(args@),
            ),
            Request::QualifiedFunction { prefix, name, args } => RequestV::QualifiedFunction(
                prefix@,
                name@,
                values_view(args@),
            ),
            Request::MemberOverload { name, args } => RequestV::MemberOverload(
                name@,
                values_view(args@),
            ),
            Request::MemberFunction { name, target, args } => RequestV::MemberFunction(
                name@,
                target@,
                values_view(args@),
            ),
            Request::Double { op, lhs, rhs } => RequestV::Double(op, lhs, rhs),
            Request::StructType { name } => RequestV::StructType(name@),
            Request::Unspecified => RequestV::Unspecified,
            Request::NewStruct { value } => match struct_view(value) {
                Val::Struct(name, fields) => RequestV::NewStruct(name, fields),
                _ => arbitrary(),
            },
        }
    }
}

/// What the embedding program replies.
#[derive(Debug)]
pub enum Reply {
    /// It has nothing of that name, or none that takes the arguments.
    Declined,
    Value(Value),
    Failed(ExecutionError),
}

impl View for Reply {
    type V = ReplyV;

    open spec fn view(&self) -> ReplyV {
        match *self {
            Reply::Declined => ReplyV::Declined,
            Reply::Value(v) => ReplyV::Value(v@),
            Reply::Failed(e) => ReplyV::Failed(e@),
        }
    }
}

impl Clone for Reply {
    fn clone(&self) -> (r: Reply)
        ensures
            r == *self,
    {
        match self {
            Reply::Declined => Reply::Declined,
            Reply::Value(v) => Reply::Value(v.clone()),
            Reply::Failed(e) => Reply::Failed(e.clone()),
        }
    }
}

/// How far an evaluation gets.
#[derive(Debug)]
pub enum Eval {
    Done(Value),
    Fail(ExecutionError),
    Ask(Request),
}

impl View for Eval {
    type V = EvalV;

    open spec fn view(&self) -> EvalV {
        match *self {
            Eval::Done(v) => EvalV::Done(v@),
            Eval::Fail(e) => EvalV::Fail(e@),
            Eval::Ask(q) => EvalV::Ask(q@),
        }
    }
}

/// What a sequence of replies is.
pub open spec fn replies_view(replies: Seq<Reply>) -> Seq<ReplyV> {
    Seq::new(replies.len(), |i: int| replies[i]@)
}

/// The replies, and how many are taken.
#[derive(Debug)]
pub struct Replay<'a> {
    pub replies: &'a Vec<Reply>,
    pub next: usize,
}

impl<'a> Replay<'a> {
    /// The replies.
    pub open spec fn all(&self) -> Seq<ReplyV> {
        replies_view(self.replies@)
    }

    /// Take the next reply.
    fn take(&mut self) -> (r: Option<Reply>)
        ensures
            final(self).replies == old(self).replies,
            match r {
                Some(reply) => {
                    &&& old(self).next < old(self).all().len()
                    &&& reply@ == old(self).all()[old(self).next as int]
                    &&& final(self).next == old(self).next + 1
                },
                None => {
                    &&& old(self).next >= old(self).all().len()
                    &&& final(self).next == old(self).next
                },
            },
    {
        if self.next < self.replies.len() {
            let reply = self.replies[self.next].clone();
            self.next = self.next + 1;
            Some(reply)
        } else {
            None
        }
    }

    /// Whether the next reply declines. It is taken if it does.
    fn take_declined(&mut self) -> (r: bool)
        ensures
            final(self).replies == old(self).replies,
            r == declines(old(self).all(), old(self).next as nat),
            final(self).next == if r {
                old(self).next + 1
            } else {
                old(self).next as int
            },
    {
        if self.next < self.replies.len() {
            match &self.replies[self.next] {
                Reply::Declined => {
                    self.next = self.next + 1;
                    true
                },
                _ => false,
            }
        } else {
            false
        }
    }

    /// Make a request: the next reply, or the request itself if there is none.
    fn ask(&mut self, request: Request, declined: ExecutionError) -> (r: Eval)
        ensures
            final(self).replies == old(self).replies,
            (r@, final(self).next as nat) == ask(
                request@,
                old(self).all(),
                old(self).next as nat,
                EvalV::Fail(declined@),
            ),
    {
        match self.take() {
            None => Eval::Ask(request),
            Some(Reply::Declined) => Eval::Fail(declined),
            Some(Reply::Value(v)) => Eval::Done(v.into_public()),
            Some(Reply::Failed(e)) => Eval::Fail(e),
        }
    }
}

/// How far the evaluation of several expressions gets.
enum Args {
    Done(Vec<Value>),
    Fail(ExecutionError),
    Ask(Request),
}

impl View for Args {
    type V = ArgsV;

    closed spec fn view(&self) -> ArgsV {
        match *self {
            Args::Done(vs) => ArgsV::Done(values_view(vs@)),
            Args::Fail(e) => ArgsV::Fail(e@),
            Args::Ask(q) => ArgsV::Ask(q@),
        }
    }
}

fn eval_of(r: ResolveResult) -> (out: Eval)
    ensures
        out@ == from_result(result_view(r)),
        out matches Eval::Done(v) ==> r == Ok::<Value, ExecutionError>(v),
{
    match r {
        Ok(v) => Eval::Done(v),
        Err(e) => Eval::Fail(e),
    }
}

/// A value that has to be a boolean.
fn try_bool_value(r: Eval) -> (out: Result<bool, Eval>)
    ensures
        match out {
            Ok(b) => to_bool(r@) == EvalV::Done(Val::Bool(b)),
            Err(e) => to_bool(r@) == e@ && !(e@ is Done),
        },
{
    match r {
        Eval::Done(v) => match as_bool(&v) {
            Some(b) => Ok(b),
            None => Err(Eval::Fail(ExecutionError::NoSuchOverload)),
        },
        other => Err(other),
    }
}

// ---------------------------------------------------------------------------
// The semantics, one step at a time. The names below stand for the functions of
// the semantics and keep them folded.

#[verifier::opaque]
spec fn ev(e: Expression, s: ScopeV, replies: Seq<ReplyV>, n: nat) -> (EvalV, nat) {
    eval(e, s, replies, n)
}

#[verifier::opaque]
spec fn ev_leaf(e: Expression, s: ScopeV, replies: Seq<ReplyV>, n: nat) -> Option<W_Root> {
    eval_leaf(e, s, replies, n)
}

#[verifier::opaque]
spec fn ev_args(args: Seq<Expression>, k: nat, s: ScopeV, replies: Seq<ReplyV>, n: nat) -> (
    ArgsV,
    nat,
) {
    eval_args(args, k, s, replies, n)
}

#[verifier::opaque]
spec fn ev_elements(l: ListExpr, k: nat, s: ScopeV, replies: Seq<ReplyV>, n: nat) -> (ArgsV, nat) {
    eval_elements(l, k, s, replies, n)
}

#[verifier::opaque]
spec fn ev_entries(entries: Seq<EntryExpr>, k: nat, s: ScopeV, replies: Seq<ReplyV>, n: nat) -> (
    EntriesV,
    nat,
) {
    eval_entries(entries, k, s, replies, n)
}

#[verifier::opaque]
spec fn ev_fields(entries: Seq<EntryExpr>, k: nat, s: ScopeV, replies: Seq<ReplyV>, n: nat) -> (
    EntriesV,
    nat,
) {
    eval_fields(entries, k, s, replies, n)
}

#[verifier::opaque]
spec fn ev_append(
    c: ComprehensionExpr,
    items: Seq<HeldV>,
    i: nat,
    acc: Seq<Val>,
    s: ScopeV,
    replies: Seq<ReplyV>,
    n: nat,
) -> (AppendV, nat) {
    eval_append(c, items, i, acc, s, replies, n)
}

#[verifier::opaque]
spec fn ev_fold(
    c: ComprehensionExpr,
    and: bool,
    items: Seq<HeldV>,
    i: nat,
    accu: bool,
    s: ScopeV,
    replies: Seq<ReplyV>,
    n: nat,
) -> (EvalV, nat) {
    eval_fold(c, and, items, i, accu, s, replies, n)
}

#[verifier::opaque]
spec fn ev_loop(
    c: ComprehensionExpr,
    items: Seq<HeldV>,
    i: nat,
    s: ScopeV,
    replies: Seq<ReplyV>,
    n: nat,
) -> (LoopV, nat) {
    eval_loop(c, items, i, s, replies, n)
}

#[verifier::opaque]
spec fn ev_comprehension(
    c: ComprehensionExpr,
    s: ScopeV,
    replies: Seq<ReplyV>,
    n: nat,
) -> (EvalV, nat) {
    eval_comprehension(c, s, replies, n)
}

#[verifier::opaque]
spec fn ev_struct(st: StructExpr, s: ScopeV, replies: Seq<ReplyV>, n: nat) -> (EvalV, nat) {
    eval_struct(st, s, replies, n)
}

#[verifier::opaque]
spec fn ev_call(call: CallExpr, s: ScopeV, replies: Seq<ReplyV>, n: nat) -> (EvalV, nat) {
    eval_call(call, s, replies, n)
}

proof fn step_args(args: Seq<Expression>, k: nat, s: ScopeV, replies: Seq<ReplyV>, n: nat)
    requires
        k <= args.len(),
    ensures
        ev_args(args, k, s, replies, n) == if k == 0 {
            (ArgsV::Done(Seq::empty()), n)
        } else {
            let (prev, m) = ev_args(args, (k - 1) as nat, s, replies, n);
            match prev {
                ArgsV::Done(vs) => {
                    let (r, p) = ev(args[k - 1], s, replies, m);
                    (push_arg(vs, r), p)
                },
                _ => (prev, m),
            }
        },
{
    reveal(ev);
    reveal(ev_args);
}

proof fn lemma_args_stuck(
    args: Seq<Expression>,
    k: nat,
    m: nat,
    s: ScopeV,
    replies: Seq<ReplyV>,
    n: nat,
)
    requires
        k <= m <= args.len(),
        !(ev_args(args, k, s, replies, n).0 is Done),
    ensures
        ev_args(args, m, s, replies, n) == ev_args(args, k, s, replies, n),
    decreases m,
{
    if k < m {
        lemma_args_stuck(args, k, (m - 1) as nat, s, replies, n);
        step_args(args, m, s, replies, n);
    }
}

proof fn step_elements(l: ListExpr, k: nat, s: ScopeV, replies: Seq<ReplyV>, n: nat)
    requires
        k <= l.elements@.len(),
    ensures
        ev_elements(l, k, s, replies, n) == if k == 0 {
            (ArgsV::Done(Seq::empty()), n)
        } else {
            let (prev, m) = ev_elements(l, (k - 1) as nat, s, replies, n);
            match prev {
                ArgsV::Done(vs) => {
                    let (r, p) = ev(l.elements@[k - 1], s, replies, m);
                    (push_element(vs, l.optional_indices@.contains((k - 1) as usize), r), p)
                },
                _ => (prev, m),
            }
        },
{
    reveal(ev);
    reveal(ev_elements);
}

proof fn lemma_elements_stuck(
    l: ListExpr,
    k: nat,
    m: nat,
    s: ScopeV,
    replies: Seq<ReplyV>,
    n: nat,
)
    requires
        k <= m <= l.elements@.len(),
        !(ev_elements(l, k, s, replies, n).0 is Done),
    ensures
        ev_elements(l, m, s, replies, n) == ev_elements(l, k, s, replies, n),
    decreases m,
{
    if k < m {
        lemma_elements_stuck(l, k, (m - 1) as nat, s, replies, n);
        step_elements(l, m, s, replies, n);
    }
}

proof fn step_entries(entries: Seq<EntryExpr>, k: nat, s: ScopeV, replies: Seq<ReplyV>, n: nat)
    requires
        k <= entries.len(),
    ensures
        ev_entries(entries, k, s, replies, n) == if k == 0 {
            (EntriesV::Done(Seq::empty()), n)
        } else {
            let (prev, m) = ev_entries(entries, (k - 1) as nat, s, replies, n);
            match (prev, entries[k - 1]) {
                (EntriesV::Done(vs), EntryExpr::StructField { .. }) => (
                    EntriesV::Ask(RequestV::Unspecified),
                    m,
                ),
                (EntriesV::Done(vs), EntryExpr::MapEntry { key, value, optional }) => {
                    let (x, p) = ev(key, s, replies, m);
                    match x {
                        EvalV::Done(kv) => if is_key(kv) {
                            let (r, q) = ev(value, s, replies, p);
                            (push_entry(vs, kv, optional, r), q)
                        } else {
                            (no_entry(x), p)
                        },
                        _ => (no_entry(x), p),
                    }
                },
                _ => (prev, m),
            }
        },
{
    reveal(ev);
    reveal(ev_entries);
}

proof fn lemma_entries_stuck(
    entries: Seq<EntryExpr>,
    k: nat,
    m: nat,
    s: ScopeV,
    replies: Seq<ReplyV>,
    n: nat,
)
    requires
        k <= m <= entries.len(),
        !(ev_entries(entries, k, s, replies, n).0 is Done),
    ensures
        ev_entries(entries, m, s, replies, n) == ev_entries(entries, k, s, replies, n),
    decreases m,
{
    if k < m {
        lemma_entries_stuck(entries, k, (m - 1) as nat, s, replies, n);
        step_entries(entries, m, s, replies, n);
    }
}

proof fn step_fields(entries: Seq<EntryExpr>, k: nat, s: ScopeV, replies: Seq<ReplyV>, n: nat)
    requires
        k <= entries.len(),
    ensures
        ev_fields(entries, k, s, replies, n) == if k == 0 {
            (EntriesV::Done(Seq::empty()), n)
        } else {
            let (prev, m) = ev_fields(entries, (k - 1) as nat, s, replies, n);
            match prev {
                EntriesV::Done(vs) => match entries[k - 1] {
                    EntryExpr::StructField { field, value, optional } => {
                        let (r, p) = ev(value, s, replies, m);
                        (push_entry(vs, Val::Str(field@), false, r), p)
                    },
                    EntryExpr::MapEntry { .. } => (
                        EntriesV::Fail(ErrV::InternalError("Expected struct_field_expr"@)),
                        m,
                    ),
                },
                _ => (prev, m),
            }
        },
{
    reveal(ev);
    reveal(ev_fields);
}

proof fn lemma_fields_stuck(
    entries: Seq<EntryExpr>,
    k: nat,
    m: nat,
    s: ScopeV,
    replies: Seq<ReplyV>,
    n: nat,
)
    requires
        k <= m <= entries.len(),
        !(ev_fields(entries, k, s, replies, n).0 is Done),
    ensures
        ev_fields(entries, m, s, replies, n) == ev_fields(entries, k, s, replies, n),
    decreases m,
{
    if k < m {
        lemma_fields_stuck(entries, k, (m - 1) as nat, s, replies, n);
        step_fields(entries, m, s, replies, n);
    }
}

proof fn step_append(
    c: ComprehensionExpr,
    items: Seq<HeldV>,
    i: nat,
    acc: Seq<Val>,
    s: ScopeV,
    replies: Seq<ReplyV>,
    n: nat,
)
    requires
        appends(c),
    ensures
        ev_append(c, items, i, acc, s, replies, n) == if i >= items.len() {
            (AppendV::Done(acc, s), n)
        } else {
            let inner = s.bind(c.iter_var@, items[i as int]);
            let (g, p) = if is_guarded(c) {
                let (r, q) = ev(arg(c.loop_step, 0), inner, replies, n);
                (to_bool(r), q)
            } else {
                (EvalV::Done(Val::Bool(true)), n)
            };
            match g {
                EvalV::Done(b) => if b == Val::Bool(true) {
                    let (r, q) = ev(
                        singleton_element(arg(append_step(c), 1)),
                        inner,
                        replies,
                        p,
                    );
                    match r {
                        EvalV::Done(v) => ev_append(
                            c,
                            items,
                            i + 1,
                            acc.push(v),
                            inner,
                            replies,
                            q,
                        ),
                        EvalV::Fail(e) => (AppendV::Fail(e), q),
                        EvalV::Ask(a) => (AppendV::Ask(a), q),
                    }
                } else {
                    ev_append(c, items, i + 1, acc, inner, replies, p)
                },
                EvalV::Fail(e) => (AppendV::Fail(e), p),
                EvalV::Ask(a) => (AppendV::Ask(a), p),
            }
        },
{
    reveal(ev);
    reveal(ev_append);
}

proof fn step_fold(
    c: ComprehensionExpr,
    and: bool,
    items: Seq<HeldV>,
    i: nat,
    accu: bool,
    s: ScopeV,
    replies: Seq<ReplyV>,
    n: nat,
)
    requires
        folds(c, and),
    ensures
        ev_fold(c, and, items, i, accu, s, replies, n) == if i >= items.len() || accu != and {
            (EvalV::Done(Val::Bool(accu)), n)
        } else {
            let inner = s.bind(c.iter_var@, items[i as int]);
            let (r, p) = ev(arg(c.loop_step, 1), inner, replies, n);
            match to_bool(r) {
                EvalV::Done(Val::Bool(b)) => ev_fold(c, and, items, i + 1, b, inner, replies, p),
                other => (other, p),
            }
        },
{
    reveal(ev);
    reveal(ev_fold);
}

proof fn step_loop(
    c: ComprehensionExpr,
    items: Seq<HeldV>,
    i: nat,
    s: ScopeV,
    replies: Seq<ReplyV>,
    n: nat,
)
    ensures
        ev_loop(c, items, i, s, replies, n) == if i >= items.len() {
            (LoopV::Done(s), n)
        } else {
            let (r, p) = ev(c.loop_cond, s, replies, n);
            match to_bool(r) {
                EvalV::Done(Val::Bool(go)) => if !go {
                    (LoopV::Done(s), p)
                } else {
                    let inner = s.bind(c.iter_var@, items[i as int]);
                    let (r2, q) = ev(c.loop_step, inner, replies, p);
                    match r2 {
                        EvalV::Done(v) => ev_loop(
                            c,
                            items,
                            i + 1,
                            inner.bind(c.accu_var@, in_public(v)),
                            replies,
                            q,
                        ),
                        EvalV::Fail(e) => (LoopV::Fail(e), q),
                        EvalV::Ask(a) => (LoopV::Ask(a), q),
                    }
                },
                EvalV::Done(_) => (LoopV::Fail(ErrV::NoSuchOverload), p),
                EvalV::Fail(e) => (LoopV::Fail(e), p),
                EvalV::Ask(a) => (LoopV::Ask(a), p),
            }
        },
{
    reveal(ev);
    reveal(ev_loop);
}

proof fn step_comprehension(c: ComprehensionExpr, s: ScopeV, replies: Seq<ReplyV>, n: nat)
    ensures
        ev_comprehension(c, s, replies, n) == {
            let (init, p) = ev(c.accu_init, s, replies, n);
            match init {
                EvalV::Done(start) => {
                    let (range, q) = ev(c.iter_range, s, replies, p);
                    match range {
                        EvalV::Done(v) => match held_items(
                            v,
                            ev_leaf(c.iter_range, s, replies, p),
                        ) {
                            Ok(items) => ev_steps(c, start, items, s, replies, q),
                            Err(e) => (EvalV::Fail(e), q),
                        },
                        _ => (range, q),
                    }
                },
                _ => (init, p),
            }
        },
{
    reveal(ev);
    reveal(ev_leaf);
    reveal(ev_steps);
    reveal(ev_comprehension);
}

#[verifier::opaque]
spec fn ev_steps(
    c: ComprehensionExpr,
    init: Val,
    items: Seq<HeldV>,
    s: ScopeV,
    replies: Seq<ReplyV>,
    n: nat,
) -> (EvalV, nat) {
    eval_steps(c, init, items, s, replies, n)
}

proof fn step_steps(
    c: ComprehensionExpr,
    init: Val,
    items: Seq<HeldV>,
    s: ScopeV,
    replies: Seq<ReplyV>,
    n: nat,
)
    ensures
        ev_steps(c, init, items, s, replies, n) == if appends(c) && init is List {
            let (r, p) = ev_append(c, items, 0, Seq::empty(), s, replies, n);
            match r {
                AppendV::Done(list, inner) => ev(
                    c.result,
                    inner.bind(c.accu_var@, in_public(Val::List(list))),
                    replies,
                    p,
                ),
                AppendV::Fail(e) => (EvalV::Fail(e), p),
                AppendV::Ask(a) => (EvalV::Ask(a), p),
            }
        } else if folds(c, true) || folds(c, false) {
            match init {
                Val::Bool(b) => ev_fold(c, folds(c, true), items, 0, b, s, replies, n),
                _ => (EvalV::Fail(ErrV::NoSuchOverload), n),
            }
        } else {
            let (r, p) = ev_loop(c, items, 0, s.bind(c.accu_var@, in_public(init)), replies, n);
            match r {
                LoopV::Done(inner) => ev(c.result, inner, replies, p),
                LoopV::Fail(e) => (EvalV::Fail(e), p),
                LoopV::Ask(a) => (EvalV::Ask(a), p),
            }
        },
{
    reveal(ev);
    reveal(ev_steps);
    reveal(ev_append);
    reveal(ev_fold);
    reveal(ev_loop);
}

#[verifier::opaque]
spec fn ev_steps_leaf(
    c: ComprehensionExpr,
    init: Val,
    items: Seq<HeldV>,
    s: ScopeV,
    replies: Seq<ReplyV>,
    n: nat,
) -> Option<W_Root> {
    eval_steps_leaf(c, init, items, s, replies, n)
}

#[verifier::opaque]
spec fn ev_comprehension_leaf(c: ComprehensionExpr, s: ScopeV, replies: Seq<ReplyV>, n: nat) -> Option<
    W_Root,
> {
    eval_comprehension_leaf(c, s, replies, n)
}

proof fn step_steps_leaf(
    c: ComprehensionExpr,
    init: Val,
    items: Seq<HeldV>,
    s: ScopeV,
    replies: Seq<ReplyV>,
    n: nat,
)
    ensures
        ev_steps_leaf(c, init, items, s, replies, n) == if appends(c) && init is List {
            let (r, p) = ev_append(c, items, 0, Seq::empty(), s, replies, n);
            match r {
                AppendV::Done(list, inner) => ev_leaf(
                    c.result,
                    inner.bind(c.accu_var@, in_public(Val::List(list))),
                    replies,
                    p,
                ),
                _ => None,
            }
        } else if folds(c, true) || folds(c, false) {
            None
        } else {
            let (r, p) = ev_loop(c, items, 0, s.bind(c.accu_var@, in_public(init)), replies, n);
            match r {
                LoopV::Done(inner) => ev_leaf(c.result, inner, replies, p),
                _ => None,
            }
        },
{
    reveal(ev_leaf);
    reveal(ev_steps_leaf);
    reveal(ev_append);
    reveal(ev_loop);
}

proof fn step_comprehension_leaf(c: ComprehensionExpr, s: ScopeV, replies: Seq<ReplyV>, n: nat)
    ensures
        ev_comprehension_leaf(c, s, replies, n) == {
            let (init, p) = ev(c.accu_init, s, replies, n);
            match init {
                EvalV::Done(start) => {
                    let (range, q) = ev(c.iter_range, s, replies, p);
                    match range {
                        EvalV::Done(v) => match held_items(
                            v,
                            ev_leaf(c.iter_range, s, replies, p),
                        ) {
                            Ok(items) => ev_steps_leaf(c, start, items, s, replies, q),
                            Err(_) => None,
                        },
                        _ => None,
                    }
                },
                _ => None,
            }
        },
{
    reveal(ev);
    reveal(ev_leaf);
    reveal(ev_steps_leaf);
    reveal(ev_comprehension_leaf);
}

proof fn step_struct(st: StructExpr, s: ScopeV, replies: Seq<ReplyV>, n: nat)
    ensures
        ev_struct(st, s, replies, n) == if n >= replies.len() {
            (EvalV::Ask(RequestV::StructType(st.type_label@)), n)
        } else if declines(replies, n) {
            (EvalV::Fail(ErrV::UnexpectedType(st.type_label@, "known struct"@)), n + 1)
        } else {
            let (r, p) = ev_fields(st.entries@, st.entries@.len(), s, replies, n + 1);
            match r {
                EntriesV::Done(fs) => ask(
                    RequestV::NewStruct(st.type_label@, fs),
                    replies,
                    p,
                    EvalV::Fail(ErrV::NoSuchOverload),
                ),
                EntriesV::Fail(e) => (EvalV::Fail(e), p),
                EntriesV::Ask(q) => (EvalV::Ask(q), p),
            }
        },
{
    reveal(ev_struct);
    reveal(ev_fields);
}

proof fn step_call(call: CallExpr, s: ScopeV, replies: Seq<ReplyV>, n: nat)
    ensures
        ev_call(call, s, replies, n) == {
            let (args, m) = ev_args(call.args@, call.args@.len(), s, replies, n);
            match args {
                ArgsV::Fail(e) => (EvalV::Fail(e), m),
                ArgsV::Ask(q) => (EvalV::Ask(q), m),
                ArgsV::Done(vs) => match call.target {
                    None => call_function(call.func_name@, vs, replies, m),
                    Some(target) => {
                        let prefixed = target.expr matches Expr::Ident(prefix)
                            && !s.locals.dom().contains(prefix@);
                        let prefix = match target.expr {
                            Expr::Ident(prefix) => prefix@,
                            _ => Seq::empty(),
                        };
                        if prefixed && !declines(replies, m) {
                            ask(
                                RequestV::QualifiedOverload(prefix, call.func_name@, vs),
                                replies,
                                m,
                                EvalV::Fail(ErrV::NoSuchOverload),
                            )
                        } else if prefixed && !declines(replies, m + 1) {
                            ask(
                                RequestV::QualifiedFunction(prefix, call.func_name@, vs),
                                replies,
                                m + 1,
                                EvalV::Fail(ErrV::NoSuchOverload),
                            )
                        } else {
                            let start = if prefixed {
                                m + 2
                            } else {
                                m
                            };
                            let (t, p) = ev(*target, s, replies, start);
                            match t {
                                EvalV::Done(v) => call_member(call.func_name@, v, vs, replies, p),
                                _ => (t, p),
                            }
                        }
                    },
                },
            }
        },
{
    reveal(ev);
    reveal(ev_args);
    reveal(ev_call);
}

/// The parts of a step that appends are smaller than the
/// comprehension.
proof fn lemma_append_parts(c: ComprehensionExpr)
    requires
        appends(c),
    ensures
        is_guarded(c) ==> decreases_to!(c => arg(c.loop_step, 0)),
        decreases_to!(c => singleton_element(arg(append_step(c), 1))),
{
    let step = append_step(c);
    if is_guarded(c) {
        let call = c.loop_step.expr->Call_0;
        assert(decreases_to!(c => c.loop_step));
        assert(decreases_to!(c.loop_step => call));
        assert(decreases_to!(call => call.args@[0]));
        assert(decreases_to!(call => call.args@[1]));
    } else {
        assert(decreases_to!(c => c.loop_step));
    }
    assert(decreases_to!(c => step));
    let add_call = step.expr->Call_0;
    assert(decreases_to!(step => add_call));
    assert(decreases_to!(add_call => add_call.args@[1]));
    let list = add_call.args@[1].expr->List_0;
    assert(decreases_to!(add_call.args@[1] => list));
    assert(decreases_to!(list => list.elements@[0]));
}

/// The predicate of a fold is smaller than the comprehension.
proof fn lemma_fold_parts(c: ComprehensionExpr, and: bool)
    requires
        folds(c, and),
    ensures
        decreases_to!(c => arg(c.loop_step, 1)),
{
    let call = c.loop_step.expr->Call_0;
    assert(decreases_to!(c => c.loop_step));
    assert(decreases_to!(c.loop_step => call));
    assert(decreases_to!(call => call.args@[1]));
}

/// The arguments of a call, in turn.
fn resolve_args(args: &Vec<Expression>, scope: &Scope<'_>, host: &mut Replay<'_>) -> (r: Args)
    ensures
        final(host).replies == old(host).replies,
        (r@, final(host).next as nat) == ev_args(
            args@,
            args@.len(),
            scope@,
            old(host).all(),
            old(host).next as nat,
        ),
    decreases args, 0nat,
{
    let ghost all = host.all();
    let ghost start = host.next as nat;
    let ghost s = scope@;
    let mut out: Vec<Value> = Vec::new();
    let mut i: usize = 0;
    assert(values_view(out@) =~= Seq::<Val>::empty());
    proof {
        step_args(args@, 0, s, all, start);
    }
    while i < args.len()
        invariant
            i <= args@.len(),
            host.replies == old(host).replies,
            all == old(host).all(),
            start == old(host).next as nat,
            s == scope@,
            ev_args(args@, i as nat, s, all, start) == (
                ArgsV::Done(values_view(out@)),
                host.next as nat,
            ),
        decreases args@.len() - i,
    {
        let ghost prev = values_view(out@);
        proof {
            step_args(args@, (i + 1) as nat, s, all, start);
        }
        let r = resolve_inner(&args[i], scope, host);
        match r {
            Eval::Done(v) => {
                out.push(v.into_public());
                assert(values_view(out@) =~= prev.push(v@));
            },
            Eval::Fail(e) => {
                proof {
                    lemma_args_stuck(args@, (i + 1) as nat, args@.len(), s, all, start);
                }
                return Args::Fail(e);
            },
            Eval::Ask(q) => {
                proof {
                    lemma_args_stuck(args@, (i + 1) as nat, args@.len(), s, all, start);
                }
                return Args::Ask(q);
            },
        }
        i = i + 1;
    }
    Args::Done(out)
}

/// What an element or entry written as optional contributes.
fn contribution(optional: bool, value: Value) -> (r: Option<Value>)
    ensures
        match r {
            Some(v) => contributed(optional, value@) == Some(v@),
            None => contributed(optional, value@) is None,
        },
{
    if optional {
        match optional_view(&value) {
            OptView::Empty => None,
            OptView::Present(inner) => Some(inner.into_public()),
            OptView::Plain => Some(value.into_public()),
        }
    } else {
        Some(value.into_public())
    }
}

/// Whether an index is among those written as optional.
fn is_optional_index(indices: &Vec<usize>, i: usize) -> (r: bool)
    ensures
        r == indices@.contains(i),
{
    let mut j: usize = 0;
    while j < indices.len()
        invariant
            j <= indices@.len(),
            forall|k: int| 0 <= k < j ==> indices@[k] != i,
        decreases indices@.len() - j,
    {
        if indices[j] == i {
            assert(indices@[j as int] == i);
            return true;
        }
        j = j + 1;
    }
    false
}

/// Whether a list literal has elements, all of them integer literals and none
/// optional.
pub open spec fn is_int_literal(list: ListExpr) -> bool {
    &&& list.optional_indices@.len() == 0
    &&& list.elements@.len() > 0
    &&& forall|i: int|
        0 <= i < list.elements@.len() ==> (#[trigger] list.elements@[i]).expr matches Expr::Literal(
            LiteralValue::Int(_),
        )
}

/// The integers of a list literal whose elements are integer literals, all of
/// them and none optional.
fn literal_ints(list: &ListExpr) -> (r: Option<Vec<i64>>)
    ensures
        match r {
            Some(ints) => {
                &&& is_int_literal(*list)
                &&& ints@.len() == list.elements@.len()
                &&& forall|i: int|
                    0 <= i < ints@.len() ==> (#[trigger] list.elements@[i]).expr == Expr::Literal(
                        LiteralValue::Int(ints@[i]),
                    )
            },
            None => !is_int_literal(*list),
        },
{
    if list.optional_indices.len() != 0 || list.elements.len() == 0 {
        return None;
    }
    let mut ints: Vec<i64> = Vec::new();
    let mut i: usize = 0;
    while i < list.elements.len()
        invariant
            i <= list.elements@.len(),
            ints@.len() == i,
            forall|j: int|
                0 <= j < i ==> (#[trigger] list.elements@[j]).expr == Expr::Literal(
                    LiteralValue::Int(ints@[j]),
                ),
        decreases list.elements@.len() - i,
    {
        match &list.elements[i].expr {
            Expr::Literal(LiteralValue::Int(v)) => ints.push(*v),
            _ => {
                return None;
            },
        }
        i = i + 1;
    }
    Some(ints)
}

proof fn lemma_literal_ints(
    l: ListExpr,
    ints: Seq<i64>,
    k: nat,
    s: ScopeV,
    replies: Seq<ReplyV>,
    n: nat,
)
    requires
        l.optional_indices@.len() == 0,
        ints.len() == l.elements@.len(),
        forall|i: int|
            0 <= i < ints.len() ==> (#[trigger] l.elements@[i]).expr == Expr::Literal(
                LiteralValue::Int(ints[i]),
            ),
        k <= ints.len(),
    ensures
        ev_elements(l, k, s, replies, n) == (ArgsV::Done(ints_view(ints.take(k as int))), n),
    decreases k,
{
    step_elements(l, k, s, replies, n);
    if k == 0 {
        assert(ints_view(ints.take(0)) =~= Seq::<Val>::empty());
    } else {
        lemma_literal_ints(l, ints, (k - 1) as nat, s, replies, n);
        reveal(ev);
        assert(!l.optional_indices@.contains((k - 1) as usize));
        assert(l.elements@[k - 1].expr == Expr::Literal(LiteralValue::Int(ints[k - 1])));
        assert(ints_view(ints.take(k as int)) =~= ints_view(ints.take(k - 1)).push(
            Val::Int(ints[k - 1]),
        ));
    }
}

/// A list literal. One of integer literals alone is kept unboxed.
fn eval_list_literal(list: &ListExpr, scope: &Scope<'_>, host: &mut Replay<'_>) -> (r: Eval)
    ensures
        final(host).replies == old(host).replies,
        ({
            let (v, m) = ev_elements(
                *list,
                list.elements@.len(),
                scope@,
                old(host).all(),
                old(host).next as nat,
            );
            &&& final(host).next as nat == m
            &&& r@ == match v {
                ArgsV::Done(vs) => EvalV::Done(Val::List(vs)),
                ArgsV::Fail(e) => EvalV::Fail(e),
                ArgsV::Ask(q) => EvalV::Ask(q),
            }
        }),
        is_int_literal(*list) ==> (r matches Eval::Done(Value::List(l)) && l.holds_ints()),
    decreases list, 0nat,
{
    let ghost all = host.all();
    let ghost start = host.next as nat;
    let ghost s = scope@;
    if let Some(ints) = literal_ints(list) {
        proof {
            lemma_literal_ints(*list, ints@, ints@.len(), s, all, start);
            assert(ints@.take(ints@.len() as int) =~= ints@);
        }
        return Eval::Done(Value::List(ListRef::from_ints(ints)));
    }
    let mut out: Vec<Value> = Vec::new();
    let mut i: usize = 0;
    assert(values_view(out@) =~= Seq::<Val>::empty());
    proof {
        step_elements(*list, 0, s, all, start);
    }
    while i < list.elements.len()
        invariant
            !is_int_literal(*list),
            i <= list.elements@.len(),
            host.replies == old(host).replies,
            all == old(host).all(),
            start == old(host).next as nat,
            s == scope@,
            ev_elements(*list, i as nat, s, all, start) == (
                ArgsV::Done(values_view(out@)),
                host.next as nat,
            ),
        decreases list.elements@.len() - i,
    {
        let ghost prev = values_view(out@);
        proof {
            step_elements(*list, (i + 1) as nat, s, all, start);
        }
        let r = resolve_inner(&list.elements[i], scope, host);
        match r {
            Eval::Done(v) => {
                if let Some(x) = contribution(is_optional_index(&list.optional_indices, i), v) {
                    out.push(x);
                    assert(values_view(out@) =~= prev.push(x@));
                }
            },
            Eval::Fail(e) => {
                proof {
                    lemma_elements_stuck(
                        *list,
                        (i + 1) as nat,
                        list.elements@.len(),
                        s,
                        all,
                        start,
                    );
                }
                return Eval::Fail(e);
            },
            Eval::Ask(q) => {
                proof {
                    lemma_elements_stuck(
                        *list,
                        (i + 1) as nat,
                        list.elements@.len(),
                        s,
                        all,
                        start,
                    );
                }
                return Eval::Ask(q);
            },
        }
        i = i + 1;
    }
    Eval::Done(Value::List(ListRef::from_vec(out)))
}

/// A map literal.
fn eval_map_literal(entries: &Vec<EntryExpr>, scope: &Scope<'_>, host: &mut Replay<'_>) -> (r: Eval)
    ensures
        final(host).replies == old(host).replies,
        ({
            let (v, m) = ev_entries(
                entries@,
                entries@.len(),
                scope@,
                old(host).all(),
                old(host).next as nat,
            );
            &&& final(host).next as nat == m
            &&& r@ == match v {
                EntriesV::Done(vs) => EvalV::Done(Val::CelMap(vs)),
                EntriesV::Fail(e) => EvalV::Fail(e),
                EntriesV::Ask(q) => EvalV::Ask(q),
            }
        }),
        r matches Eval::Done(v) ==> {
            &&& v matches Value::CelMap(m)
            &&& m.spec_storage() is Entries == (entries@.len() <= ORDERED_SCAN_LIMIT)
            &&& m.spec_storage() is Object == (entries@.len() > ORDERED_SCAN_LIMIT)
        },
    decreases entries, 0nat,
{
    let ghost all = host.all();
    let ghost start = host.next as nat;
    let ghost s = scope@;
    let mut table = Table::new();
    let mut i: usize = 0;
    proof {
        step_entries(entries@, 0, s, all, start);
    }
    while i < entries.len()
        invariant
            i <= entries@.len(),
            host.replies == old(host).replies,
            all == old(host).all(),
            start == old(host).next as nat,
            table@.len() <= i,
            s == scope@,
            ev_entries(entries@, i as nat, s, all, start) == (
                EntriesV::Done(table@),
                host.next as nat,
            ),
        decreases entries@.len() - i,
    {
        match &entries[i] {
            EntryExpr::MapEntry { key, value, optional } => {
                proof {
                    step_entries(entries@, (i + 1) as nat, s, all, start);
                }
                let k = resolve_inner(key, scope, host);
                match k {
                    Eval::Done(kv) => match value_key(kv) {
                        Ok(k) => {
                            let v = resolve_inner(value, scope, host);
                            match v {
                                Eval::Done(v) => {
                                    if let Some(x) = contribution(*optional, v) {
                                        table.insert(k, x);
                                    }
                                },
                                Eval::Fail(e) => {
                                    proof {
                                        lemma_entries_stuck(
                                            entries@,
                                            (i + 1) as nat,
                                            entries@.len(),
                                            s,
                                            all,
                                            start,
                                        );
                                    }
                                    return Eval::Fail(e);
                                },
                                Eval::Ask(q) => {
                                    proof {
                                        lemma_entries_stuck(
                                            entries@,
                                            (i + 1) as nat,
                                            entries@.len(),
                                            s,
                                            all,
                                            start,
                                        );
                                    }
                                    return Eval::Ask(q);
                                },
                            }
                        },
                        Err(e) => {
                            proof {
                                lemma_entries_stuck(
                                    entries@,
                                    (i + 1) as nat,
                                    entries@.len(),
                                    s,
                                    all,
                                    start,
                                );
                            }
                            return Eval::Fail(e);
                        },
                    },
                    Eval::Fail(e) => {
                        proof {
                            lemma_entries_stuck(
                                entries@,
                                (i + 1) as nat,
                                entries@.len(),
                                s,
                                all,
                                start,
                            );
                        }
                        return Eval::Fail(e);
                    },
                    Eval::Ask(q) => {
                        proof {
                            lemma_entries_stuck(
                                entries@,
                                (i + 1) as nat,
                                entries@.len(),
                                s,
                                all,
                                start,
                            );
                        }
                        return Eval::Ask(q);
                    },
                }
            },
            EntryExpr::StructField { .. } => {
                proof {
                    step_entries(entries@, (i + 1) as nat, s, all, start);
                    lemma_entries_stuck(
                        entries@,
                        (i + 1) as nat,
                        entries@.len(),
                        s,
                        all,
                        start,
                    );
                }
                return Eval::Ask(Request::Unspecified);
            },
        }
        i = i + 1;
    }
    Eval::Done(Value::CelMap(CelMap::filled(table, entries.len())))
}

/// The fields of a struct literal, stored in turn.
fn eval_struct_fields(
    entries: &Vec<EntryExpr>,
    empty: CelStruct,
    scope: &Scope<'_>,
    host: &mut Replay<'_>,
) -> (r: Result<CelStruct, Eval>)
    requires
        struct_view(empty) matches Val::Struct(_, f) && f == Seq::<(Val, Val)>::empty(),
    ensures
        final(host).replies == old(host).replies,
        ({
            let (v, m) = ev_fields(
                entries@,
                entries@.len(),
                scope@,
                old(host).all(),
                old(host).next as nat,
            );
            &&& final(host).next as nat == m
            &&& match v {
                EntriesV::Done(fields) => r matches Ok(built) && struct_view(built) == Val::Struct(
                    struct_view(empty)->Struct_0,
                    fields,
                ),
                EntriesV::Fail(e) => r matches Err(x) && x@ == EvalV::Fail(e),
                EntriesV::Ask(q) => r matches Err(x) && x@ == EvalV::Ask(q),
            }
        }),
    decreases entries, 0nat,
{
    let ghost all = host.all();
    let ghost start = host.next as nat;
    let ghost s = scope@;
    let ghost name = struct_view(empty)->Struct_0;
    let mut built = empty;
    let mut i: usize = 0;
    proof {
        step_fields(entries@, 0, s, all, start);
    }
    while i < entries.len()
        invariant
            i <= entries@.len(),
            host.replies == old(host).replies,
            all == old(host).all(),
            start == old(host).next as nat,
            s == scope@,
            name == struct_view(empty)->Struct_0,
            struct_view(built) is Struct,
            struct_view(built)->Struct_0 == name,
            ev_fields(entries@, i as nat, s, all, start) == (
                EntriesV::Done(struct_view(built)->Struct_1),
                host.next as nat,
            ),
        decreases entries@.len() - i,
    {
        proof {
            step_fields(entries@, (i + 1) as nat, s, all, start);
        }
        match &entries[i] {
            EntryExpr::StructField { field, value, optional } => {
                let v = resolve_inner(value, scope, host);
                match v {
                    Eval::Done(v) => {
                        built.add_field_value(field.clone(), v.into_public());
                    },
                    stopped => {
                        proof {
                            lemma_fields_stuck(
                                entries@,
                                (i + 1) as nat,
                                entries@.len(),
                                s,
                                all,
                                start,
                            );
                        }
                        return Err(stopped);
                    },
                }
            },
            EntryExpr::MapEntry { .. } => {
                proof {
                    lemma_fields_stuck(entries@, (i + 1) as nat, entries@.len(), s, all, start);
                }
                return Err(
                    Eval::Fail(
                        ExecutionError::InternalError("Expected struct_field_expr".to_owned()),
                    ),
                );
            },
        }
        i = i + 1;
    }
    Ok(built)
}

/// A struct literal.
fn eval_struct_literal(lit: &StructExpr, scope: &Scope<'_>, host: &mut Replay<'_>) -> (r: Eval)
    ensures
        final(host).replies == old(host).replies,
        (r@, final(host).next as nat) == ev_struct(
            *lit,
            scope@,
            old(host).all(),
            old(host).next as nat,
        ),
    decreases lit, 0nat,
{
    proof {
        step_struct(*lit, scope@, host.all(), host.next as nat);
    }
    match host.take() {
        None => {
            return Eval::Ask(Request::StructType { name: lit.type_label.clone() });
        },
        Some(Reply::Declined) => {
            return Eval::Fail(
                ExecutionError::UnexpectedType {
                    got: lit.type_label.clone(),
                    want: "known struct".to_owned(),
                },
            );
        },
        _ => {},
    }
    let empty = CelStruct::new(lit.type_label.clone());
    match eval_struct_fields(&lit.entries, empty, scope, host) {
        Ok(value) => host.ask(Request::NewStruct { value }, ExecutionError::NoSuchOverload),
        Err(stopped) => stopped,
    }
}

/// The append shape that `map` and `filter` expand their step to.
pub struct AccuAppend<'a> {
    /// The condition, when the step is conditional.
    pub guard: Option<&'a Expression>,
    /// The element that the step appends.
    pub element: &'a Expression,
}

impl<'a> AccuAppend<'a> {
    /// The shape of a comprehension, if it appends.
    pub fn of(comprehension: &'a ComprehensionExpr) -> (r: Option<AccuAppend<'a>>)
        ensures
            match r {
                Some(a) => {
                    &&& appends(*comprehension)
                    &&& match a.guard {
                        Some(g) => is_guarded(*comprehension) && *g == arg(
                            comprehension.loop_step,
                            0,
                        ),
                        None => !is_guarded(*comprehension),
                    }
                    &&& *a.element == singleton_element(arg(append_step(*comprehension), 1))
                },
                None => !appends(*comprehension),
            },
    {
        match &comprehension.loop_cond.expr {
            Expr::Literal(LiteralValue::Boolean(b)) => {
                if !*b {
                    return None;
                }
            },
            _ => {
                return None;
            },
        }
        let accu = comprehension.accu_var.as_str();
        let mut guard: Option<&'a Expression> = None;
        let mut step: &'a Expression = &comprehension.loop_step;
        if let Expr::Call(call) = &comprehension.loop_step.expr {
            if operator_of(call.func_name.as_str()) == Operator::Conditional && call.args.len() == 3
                && is_variable(&call.args[2], accu) {
                guard = Some(&call.args[0]);
                step = &call.args[1];
            }
        }
        assert(*step == append_step(*comprehension));
        if let Expr::Call(call) = &step.expr {
            if operator_of(call.func_name.as_str()) == Operator::Arith(BinOp::Add)
                && call.args.len() == 2 && is_variable(&call.args[0], accu) {
                if let Expr::List(list) = &call.args[1].expr {
                    if list.elements.len() == 1 && list.optional_indices.len() == 0 {
                        return Some(AccuAppend { guard, element: &list.elements[0] });
                    }
                }
            }
        }
        None
    }
}

/// The folding shape that `all` and `exists` expand to.
pub struct BoolAccu<'a> {
    /// `true` for `all`, which stops on false; `false` for `exists`, which stops on
    /// true.
    pub and: bool,
    pub pred: &'a Expression,
}

impl<'a> BoolAccu<'a> {
    /// The shape of a comprehension, if it folds its predicate.
    pub fn of(comprehension: &'a ComprehensionExpr) -> (r: Option<BoolAccu<'a>>)
        ensures
            match r {
                Some(b) => {
                    &&& folds(*comprehension, b.and)
                    &&& b.and == folds(*comprehension, true)
                    &&& *b.pred == arg(comprehension.loop_step, 1)
                },
                None => !folds(*comprehension, true) && !folds(*comprehension, false),
            },
    {
        let accu = comprehension.accu_var.as_str();
        if !is_variable(&comprehension.result, accu) {
            return None;
        }
        if let Expr::Call(step) = &comprehension.loop_step.expr {
            if step.args.len() != 2 || !is_variable(&step.args[0], accu) {
                return None;
            }
            let and = match operator_of(step.func_name.as_str()) {
                Operator::LogicalAnd => true,
                Operator::LogicalOr => false,
                _ => {
                    return None;
                },
            };
            if let Expr::Call(cond) = &comprehension.loop_cond.expr {
                if operator_of(cond.func_name.as_str()) != Operator::NotStrictlyFalse
                    || cond.args.len() != 1 {
                    return None;
                }
                let inner = &cond.args[0];
                if and {
                    if !is_variable(inner, accu) {
                        return None;
                    }
                } else if let Expr::Call(not) = &inner.expr {
                    if operator_of(not.func_name.as_str()) != Operator::LogicalNot
                        || not.args.len() != 1 || !is_variable(&not.args[0], accu) {
                        return None;
                    }
                } else {
                    return None;
                }
                return Some(BoolAccu { and, pred: &step.args[1] });
            }
        }
        None
    }
}

/// The loop of a comprehension that folds its predicate.
fn eval_bool_accu(
    c: &ComprehensionExpr,
    shape: BoolAccu<'_>,
    init: &Value,
    items: &Vec<Value>,
    inner: Scope<'_>,
    host: &mut Replay<'_>,
) -> (r: Eval)
    requires
        folds(*c, shape.and),
        *shape.pred == arg(c.loop_step, 1),
    ensures
        final(host).replies == old(host).replies,
        (r@, final(host).next as nat) == match init@ {
            Val::Bool(b) => ev_fold(
                *c,
                shape.and,
                held_views(items@),
                0,
                b,
                inner@,
                old(host).all(),
                old(host).next as nat,
            ),
            _ => (EvalV::Fail(ErrV::NoSuchOverload), old(host).next as nat),
        },
        r matches Eval::Done(v) ==> held(v) is None,
    decreases c, 0nat,
{
    let mut scope = inner;
    let mut accu = match as_bool(init) {
        Some(b) => b,
        None => {
            return Eval::Fail(ExecutionError::NoSuchOverload);
        },
    };
    let ghost all = host.all();
    let ghost vals = held_views(items@);
    let ghost whole = ev_fold(
        *c,
        shape.and,
        vals,
        0,
        accu,
        scope@,
        all,
        host.next as nat,
    );
    let mut i: usize = 0;
    while i < items.len() && accu == shape.and
        invariant
            i <= items@.len(),
            folds(*c, shape.and),
            *shape.pred == arg(c.loop_step, 1),
            host.replies == old(host).replies,
            all == old(host).all(),
            vals == held_views(items@),
            init@ matches Val::Bool(b) && whole == ev_fold(
                *c,
                shape.and,
                vals,
                0,
                b,
                inner@,
                all,
                old(host).next as nat,
            ),
            whole == ev_fold(
                *c,
                shape.and,
                vals,
                i as nat,
                accu,
                scope@,
                all,
                host.next as nat,
            ),
        decreases items@.len() - i,
    {
        proof {
            step_fold(*c, shape.and, vals, i as nat, accu, scope@, all, host.next as nat);
            lemma_fold_parts(*c, shape.and);
        }
        scope.rebind(c.iter_var.as_str(), items[i].clone());
        let r = resolve_inner(shape.pred, &scope, host);
        match try_bool_value(r) {
            Ok(b) => {
                accu = b;
            },
            Err(e) => {
                return e;
            },
        }
        i = i + 1;
    }
    proof {
        step_fold(*c, shape.and, vals, i as nat, accu, scope@, all, host.next as nat);
    }
    Eval::Done(Value::Bool(accu))
}

/// The loop of a comprehension that appends.
fn eval_accu_append<'a>(
    c: &ComprehensionExpr,
    shape: AccuAppend<'_>,
    items: &Vec<Value>,
    inner: Scope<'a>,
    host: &mut Replay<'_>,
) -> (r: (Args, Scope<'a>))
    requires
        appends(*c),
        match shape.guard {
            Some(g) => is_guarded(*c) && *g == arg(c.loop_step, 0),
            None => !is_guarded(*c),
        },
        *shape.element == singleton_element(arg(append_step(*c), 1)),
    ensures
        final(host).replies == old(host).replies,
        ({
            let (v, m) = ev_append(
                *c,
                held_views(items@),
                0,
                Seq::empty(),
                inner@,
                old(host).all(),
                old(host).next as nat,
            );
            &&& final(host).next as nat == m
            &&& match v {
                AppendV::Done(vs, s) => r.0@ == ArgsV::Done(vs) && r.1@ == s,
                AppendV::Fail(e) => r.0@ == ArgsV::Fail(e),
                AppendV::Ask(q) => r.0@ == ArgsV::Ask(q),
            }
        }),
    decreases c, 0nat,
{
    let mut scope = inner;
    let ghost all = host.all();
    let ghost vals = held_views(items@);
    let ghost whole = ev_append(
        *c,
        vals,
        0,
        Seq::empty(),
        scope@,
        all,
        host.next as nat,
    );
    let mut out: Vec<Value> = Vec::new();
    let mut i: usize = 0;
    assert(values_view(out@) =~= Seq::<Val>::empty());
    while i < items.len()
        invariant
            i <= items@.len(),
            appends(*c),
            match shape.guard {
                Some(g) => is_guarded(*c) && *g == arg(c.loop_step, 0),
                None => !is_guarded(*c),
            },
            *shape.element == singleton_element(arg(append_step(*c), 1)),
            host.replies == old(host).replies,
            all == old(host).all(),
            vals == held_views(items@),
            whole == ev_append(
                *c,
                vals,
                0,
                Seq::empty(),
                inner@,
                all,
                old(host).next as nat,
            ),
            whole == ev_append(
                *c,
                vals,
                i as nat,
                values_view(out@),
                scope@,
                all,
                host.next as nat,
            ),
        decreases items@.len() - i,
    {
        proof {
            step_append(
                *c,
                vals,
                i as nat,
                values_view(out@),
                scope@,
                all,
                host.next as nat,
            );
            lemma_append_parts(*c);
        }
        scope.rebind(c.iter_var.as_str(), items[i].clone());
        let mut keep = true;
        if let Some(guard) = shape.guard {
            let g = resolve_inner(guard, &scope, host);
            match try_bool_value(g) {
                Ok(b) => {
                    keep = b;
                },
                Err(Eval::Fail(e)) => {
                    return (Args::Fail(e), scope);
                },
                Err(Eval::Ask(q)) => {
                    return (Args::Ask(q), scope);
                },
                Err(Eval::Done(_)) => {
                    assert(false);
                },
            }
        }
        if keep {
            let ghost prev = values_view(out@);
            let v = resolve_inner(shape.element, &scope, host);
            match v {
                Eval::Done(v) => {
                    out.push(v.into_public());
                    assert(values_view(out@) =~= prev.push(v@));
                },
                Eval::Fail(e) => {
                    return (Args::Fail(e), scope);
                },
                Eval::Ask(q) => {
                    return (Args::Ask(q), scope);
                },
            }
        }
        i = i + 1;
    }
    proof {
        step_append(*c, vals, i as nat, values_view(out@), scope@, all, host.next as nat);
    }
    (Args::Done(out), scope)
}

/// The loop of any comprehension. `None` when it ran to its end.
fn eval_general_loop<'a>(
    c: &ComprehensionExpr,
    items: &Vec<Value>,
    inner: Scope<'a>,
    host: &mut Replay<'_>,
) -> (r: (Option<Eval>, Scope<'a>))
    ensures
        final(host).replies == old(host).replies,
        ({
            let (v, m) = ev_loop(
                *c,
                held_views(items@),
                0,
                inner@,
                old(host).all(),
                old(host).next as nat,
            );
            &&& final(host).next as nat == m
            &&& match v {
                LoopV::Done(s) => r.0 is None && r.1@ == s,
                LoopV::Fail(e) => r.0 matches Some(x) && x@ == EvalV::Fail(e),
                LoopV::Ask(q) => r.0 matches Some(x) && x@ == EvalV::Ask(q),
            }
        }),
    decreases c, 0nat,
{
    let mut scope = inner;
    let ghost all = host.all();
    let ghost vals = held_views(items@);
    let ghost whole = ev_loop(*c, vals, 0, scope@, all, host.next as nat);
    let mut i: usize = 0;
    while i < items.len()
        invariant
            i <= items@.len(),
            host.replies == old(host).replies,
            all == old(host).all(),
            vals == held_views(items@),
            whole == ev_loop(*c, vals, 0, inner@, all, old(host).next as nat),
            whole == ev_loop(*c, vals, i as nat, scope@, all, host.next as nat),
        decreases items@.len() - i,
    {
        proof {
            step_loop(*c, vals, i as nat, scope@, all, host.next as nat);
        }
        let g = resolve_inner(&c.loop_cond, &scope, host);
        match try_bool_value(g) {
            Ok(go) => {
                if !go {
                    return (None, scope);
                }
            },
            Err(e) => {
                return (Some(e), scope);
            },
        }
        scope.rebind(c.iter_var.as_str(), items[i].clone());
        let v = resolve_inner(&c.loop_step, &scope, host);
        match v {
            Eval::Done(v) => {
                scope.rebind(c.accu_var.as_str(), v.into_public());
            },
            other => {
                return (Some(other), scope);
            },
        }
        i = i + 1;
    }
    proof {
        step_loop(*c, vals, i as nat, scope@, all, host.next as nat);
    }
    (None, scope)
}

/// A comprehension.
fn resolve_comprehension(c: &ComprehensionExpr, scope: &Scope<'_>, host: &mut Replay<'_>) -> (r: Eval)
    ensures
        final(host).replies == old(host).replies,
        (r@, final(host).next as nat) == ev_comprehension(
            *c,
            scope@,
            old(host).all(),
            old(host).next as nat,
        ),
        r matches Eval::Done(v) ==> held(v) == ev_comprehension_leaf(
            *c,
            scope@,
            old(host).all(),
            old(host).next as nat,
        ),
    decreases c, 1nat,
{
    proof {
        step_comprehension(*c, scope@, host.all(), host.next as nat);
        step_comprehension_leaf(*c, scope@, host.all(), host.next as nat);
    }
    let init = match resolve_inner(&c.accu_init, scope, host) {
        Eval::Done(v) => v,
        other => {
            return other;
        },
    };
    let range = match resolve_inner(&c.iter_range, scope, host) {
        Eval::Done(v) => v,
        other => {
            return other;
        },
    };
    let items = match value_iter(&range) {
        Ok(items) => items,
        Err(e) => {
            return Eval::Fail(e);
        },
    };
    let mut inner = scope.new_inner_scope();
    proof {
        step_steps(*c, init@, held_views(items@), scope@, host.all(), host.next as nat);
        step_steps_leaf(*c, init@, held_views(items@), scope@, host.all(), host.next as nat);
    }
    if let Some(shape) = AccuAppend::of(c) {
        if let Value::List(_) = init.unpack() {
            let (built, mut after) = eval_accu_append(c, shape, &items, inner, host);
            return match built {
                Args::Done(list) => {
                    after.rebind(c.accu_var.as_str(), Value::List(ListRef::from_vec(list)));
                    resolve_inner(&c.result, &after, host)
                },
                Args::Fail(e) => Eval::Fail(e),
                Args::Ask(q) => Eval::Ask(q),
            };
        }
    }
    if let Some(shape) = BoolAccu::of(c) {
        return eval_bool_accu(c, shape, &init, &items, inner, host);
    }
    inner.rebind(c.accu_var.as_str(), init.into_public());
    match eval_general_loop(c, &items, inner, host) {
        (Some(stopped), _) => stopped,
        (None, after) => resolve_inner(&c.result, &after, host),
    }
}

/// A call that is no operator.
fn eval_function_call(call: &CallExpr, scope: &Scope<'_>, host: &mut Replay<'_>) -> (r: Eval)
    ensures
        final(host).replies == old(host).replies,
        (r@, final(host).next as nat) == ev_call(
            *call,
            scope@,
            old(host).all(),
            old(host).next as nat,
        ),
    decreases call, 1nat,
{
    proof {
        step_call(*call, scope@, host.all(), host.next as nat);
    }
    let mut args = match resolve_args(&call.args, scope, host) {
        Args::Done(args) => args,
        Args::Fail(e) => {
            return Eval::Fail(e);
        },
        Args::Ask(q) => {
            return Eval::Ask(q);
        },
    };
    match &call.target {
        None => {
            if host.take_declined() {
                host.ask(
                    Request::Function { name: call.func_name.clone(), args },
                    ExecutionError::UndeclaredReference(Arc::new(call.func_name.clone())),
                )
            } else {
                host.ask(
                    Request::Overload { name: call.func_name.clone(), args },
                    ExecutionError::NoSuchOverload,
                )
            }
        },
        Some(target) => {
            if let Expr::Ident(prefix) = &target.expr {
                if !scope.is_comprehension_variable(prefix.as_str()) {
                    if !host.take_declined() {
                        return host.ask(
                            Request::QualifiedOverload {
                                prefix: prefix.clone(),
                                name: call.func_name.clone(),
                                args,
                            },
                            ExecutionError::NoSuchOverload,
                        );
                    }
                    if !host.take_declined() {
                        return host.ask(
                            Request::QualifiedFunction {
                                prefix: prefix.clone(),
                                name: call.func_name.clone(),
                                args,
                            },
                            ExecutionError::NoSuchOverload,
                        );
                    }
                }
            }
            let receiver = match resolve_inner(target, scope, host) {
                Eval::Done(v) => v.into_public(),
                other => {
                    return other;
                },
            };
            if host.take_declined() {
                host.ask(
                    Request::MemberFunction {
                        name: call.func_name.clone(),
                        target: receiver,
                        args,
                    },
                    ExecutionError::UndeclaredReference(Arc::new(call.func_name.clone())),
                )
            } else {
                let ghost vs = values_view(args@);
                args.insert(0, receiver);
                assert(values_view(args@) =~= seq![receiver@] + vs);
                host.ask(
                    Request::MemberOverload { name: call.func_name.clone(), args },
                    ExecutionError::NoSuchOverload,
                )
            }
        },
    }
}

/// An arithmetic operator.
fn binary_op(op: BinOp, lhs: Value, rhs: Value, host: &mut Replay<'_>) -> (r: Eval)
    ensures
        final(host).replies == old(host).replies,
        (r@, final(host).next as nat) == apply2(
            Operator::Arith(op),
            lhs@,
            None,
            rhs@,
            None,
            old(host).all(),
            old(host).next as nat,
        ),
{
    match binary_values(op, lhs, rhs) {
        Outcome::Done(r) => eval_of(r),
        Outcome::Double(op, lhs, rhs) => host.ask(
            Request::Double { op, lhs, rhs },
            ExecutionError::NoSuchOverload,
        ),
    }
}

/// The optional selection.
fn eval_opt_select(operand: &Value, name: Value) -> (r: Eval)
    ensures
        r@ == opt_select(operand@, held(*operand), name@, held(name) is Some),
{
    match &name {
        Value::String(_) => match optional_view(operand) {
            OptView::Empty => Eval::Done(optional_none()),
            OptView::Present(inner) => Eval::Done(
                optional_of(
                    match value_index(&inner, &name) {
                        Ok(v) => v,
                        Err(_) => optional_none(),
                    },
                ),
            ),
            OptView::Plain => match value_index(operand, &name) {
                Ok(v) => Eval::Done(optional_of(v)),
                Err(e) => Eval::Fail(e),
            },
        },
        _ => Eval::Fail(ExecutionError::function_error("_?._", "field must be string")),
    }
}

/// A binary operator that evaluates both operands first, on their values.
fn apply_strict(op: Operator, lhs: Value, rhs: Value, host: &mut Replay<'_>) -> (r: Eval)
    requires
        is_strict(op),
    ensures
        final(host).replies == old(host).replies,
        (r@, final(host).next as nat) == apply2(
            op,
            lhs@,
            held(lhs),
            rhs@,
            held(rhs),
            old(host).all(),
            old(host).next as nat,
        ),
{
    match op {
        Operator::Equals => Eval::Done(Value::Bool(value_eq(&lhs, &rhs))),
        Operator::NotEquals => Eval::Done(Value::Bool(!value_eq(&lhs, &rhs))),
        Operator::In => match value_contains(&rhs, &lhs) {
            Ok(b) => Eval::Done(Value::Bool(b)),
            Err(e) => Eval::Fail(e),
        },
        Operator::OptSelect => eval_opt_select(&lhs, rhs),
        Operator::Arith(a) => binary_op(a, lhs, rhs, host),
        Operator::Ordered(c) => eval_of(compare_values(c, &lhs, &rhs)),
        _ => Eval::Fail(ExecutionError::NoSuchOverload),
    }
}

/// `&&` and `||`.
fn eval_logical(
    absorbing: bool,
    args: &Vec<Expression>,
    scope: &Scope<'_>,
    host: &mut Replay<'_>,
) -> (r: Eval)
    requires
        args@.len() == 2,
    ensures
        final(host).replies == old(host).replies,
        ({
            let (l, p) = ev(args@[0], scope@, old(host).all(), old(host).next as nat);
            let left = to_bool(l);
            (r@, final(host).next as nat) == if left is Ask || left == EvalV::Done(
                Val::Bool(absorbing),
            ) {
                (left, p)
            } else {
                let (right, q) = ev(args@[1], scope@, old(host).all(), p);
                (logical(absorbing, left, right), q)
            }
        }),
    decreases args, 1nat,
{
    let l = resolve_inner(&args[0], scope, host);
    let left = try_bool_value(l);
    match left {
        Ok(b) => {
            if b == absorbing {
                return Eval::Done(Value::Bool(b));
            }
            match resolve_inner(&args[1], scope, host) {
                Eval::Done(v) => match as_bool(&v) {
                    Some(b) => Eval::Done(Value::Bool(b)),
                    None => Eval::Fail(ExecutionError::NoSuchOverload),
                },
                other => other,
            }
        },
        Err(Eval::Ask(q)) => Eval::Ask(q),
        Err(stopped) => match resolve_inner(&args[1], scope, host) {
            Eval::Done(v) => match as_bool(&v) {
                Some(b) => if b == absorbing {
                    Eval::Done(Value::Bool(b))
                } else {
                    stopped
                },
                None => stopped,
            },
            other => other,
        },
    }
}

/// The indexing operators on an evaluated container and key.
fn index_by(optional: bool, container: &Value, key: &Value) -> (r: Eval)
    requires
        container@ != Val::Optional(None),
    ensures
        r@ == index_result(optional, container@, held(*container), key@),
        !optional ==> (r matches Eval::Done(u) ==> held(u) == index_leaf(
            container@,
            held(*container),
            key@,
        )),
{
    match optional_view(container) {
        OptView::Present(inner) => Eval::Done(
            match value_index(&inner, key) {
                Ok(v) => optional_of(v),
                Err(_) => optional_none(),
            },
        ),
        _ => match value_index(container, key) {
            Ok(v) => if optional {
                Eval::Done(optional_of(v))
            } else {
                Eval::Done(v)
            },
            Err(e) => if optional {
                Eval::Done(optional_none())
            } else {
                Eval::Fail(e)
            },
        },
    }
}

/// The leaf that `args[0][args[1]]` is held as.
spec fn ev_index_leaf(args: Seq<Expression>, s: ScopeV, replies: Seq<ReplyV>, n: nat) -> Option<
    W_Root,
> {
    let (c, p) = ev(args[0], s, replies, n);
    match (c, ev(args[1], s, replies, p).0) {
        (EvalV::Done(v), EvalV::Done(x)) => index_leaf(v, ev_leaf(args[0], s, replies, n), x),
        _ => None,
    }
}

/// `c[k]` and `c[?k]`.
fn eval_index(
    optional: bool,
    args: &Vec<Expression>,
    scope: &Scope<'_>,
    host: &mut Replay<'_>,
) -> (r: Eval)
    requires
        args@.len() == 2,
    ensures
        final(host).replies == old(host).replies,
        ({
            let (c, p) = ev(args@[0], scope@, old(host).all(), old(host).next as nat);
            (r@, final(host).next as nat) == match c {
                EvalV::Done(Val::Optional(None)) => (c, p),
                EvalV::Done(v) => {
                    let (key, q) = ev(args@[1], scope@, old(host).all(), p);
                    match key {
                        EvalV::Done(x) => (
                            index_result(
                                optional,
                                v,
                                ev_leaf(args@[0], scope@, old(host).all(), old(host).next as nat),
                                x,
                            ),
                            q,
                        ),
                        _ => (key, q),
                    }
                },
                _ => (c, p),
            }
        }),
        !optional ==> (r matches Eval::Done(u) ==> held(u) == ev_index_leaf(
            args@,
            scope@,
            old(host).all(),
            old(host).next as nat,
        )),
    decreases args, 1nat,
{
    let container = match resolve_inner(&args[0], scope, host) {
        Eval::Done(v) => v,
        other => {
            return other;
        },
    };
    if let OptView::Empty = optional_view(&container) {
        return Eval::Done(optional_none());
    }
    let key = match resolve_inner(&args[1], scope, host) {
        Eval::Done(v) => v,
        other => {
            return other;
        },
    };
    index_by(optional, &container, &key)
}

/// `c ? a : b`.
fn eval_conditional(args: &Vec<Expression>, scope: &Scope<'_>, host: &mut Replay<'_>) -> (r: Eval)
    requires
        args@.len() == 3,
    ensures
        final(host).replies == old(host).replies,
        ({
            let (c, p) = ev(args@[0], scope@, old(host).all(), old(host).next as nat);
            (r@, final(host).next as nat) == match to_bool(c) {
                EvalV::Done(b) => if b == Val::Bool(true) {
                    ev(args@[1], scope@, old(host).all(), p)
                } else {
                    ev(args@[2], scope@, old(host).all(), p)
                },
                other => (other, p),
            }
        }),
        r matches Eval::Done(v) ==> ({
            let (c, p) = ev(args@[0], scope@, old(host).all(), old(host).next as nat);
            held(v) == match to_bool(c) {
                EvalV::Done(b) => if b == Val::Bool(true) {
                    ev_leaf(args@[1], scope@, old(host).all(), p)
                } else {
                    ev_leaf(args@[2], scope@, old(host).all(), p)
                },
                _ => None,
            }
        }),
    decreases args, 1nat,
{
    let c = resolve_inner(&args[0], scope, host);
    match try_bool_value(c) {
        Ok(true) => resolve_inner(&args[1], scope, host),
        Ok(false) => resolve_inner(&args[2], scope, host),
        Err(stopped) => stopped,
    }
}

/// A binary operator that evaluates both operands first.
fn eval_strict(
    op: Operator,
    args: &Vec<Expression>,
    scope: &Scope<'_>,
    host: &mut Replay<'_>,
) -> (r: Eval)
    requires
        is_strict(op),
        args@.len() == 2,
    ensures
        final(host).replies == old(host).replies,
        ({
            let (l, p) = ev(args@[0], scope@, old(host).all(), old(host).next as nat);
            (r@, final(host).next as nat) == match l {
                EvalV::Done(lv) => {
                    let (rr, q) = ev(args@[1], scope@, old(host).all(), p);
                    match rr {
                        EvalV::Done(rv) => apply2(
                            op,
                            lv,
                            ev_leaf(args@[0], scope@, old(host).all(), old(host).next as nat),
                            rv,
                            ev_leaf(args@[1], scope@, old(host).all(), p),
                            old(host).all(),
                            q,
                        ),
                        _ => (rr, q),
                    }
                },
                _ => (l, p),
            }
        }),
    decreases args, 1nat,
{
    let lhs = match resolve_inner(&args[0], scope, host) {
        Eval::Done(v) => v,
        other => {
            return other;
        },
    };
    let rhs = match resolve_inner(&args[1], scope, host) {
        Eval::Done(v) => v,
        other => {
            return other;
        },
    };
    apply_strict(op, lhs, rhs, host)
}

/// `!x`, `-x` and the condition of a comprehension.
fn eval_unary(
    op: Operator,
    args: &Vec<Expression>,
    scope: &Scope<'_>,
    host: &mut Replay<'_>,
) -> (r: Eval)
    requires
        op is LogicalNot || op is Negate || op is NotStrictlyFalse,
        args@.len() == 1,
    ensures
        final(host).replies == old(host).replies,
        ({
            let (x, p) = ev(args@[0], scope@, old(host).all(), old(host).next as nat);
            &&& final(host).next as nat == p
            &&& r@ == match op {
                Operator::LogicalNot => match to_bool(x) {
                    EvalV::Done(b) => EvalV::Done(Val::Bool(b == Val::Bool(false))),
                    other => other,
                },
                Operator::Negate => match x {
                    EvalV::Done(v) => from_result(negate(v)),
                    _ => x,
                },
                _ => match to_bool(x) {
                    EvalV::Fail(_) => EvalV::Done(Val::Bool(true)),
                    other => other,
                },
            }
        }),
    decreases args, 1nat,
{
    let x = resolve_inner(&args[0], scope, host);
    match op {
        Operator::LogicalNot => match try_bool_value(x) {
            Ok(b) => Eval::Done(Value::Bool(!b)),
            Err(stopped) => stopped,
        },
        Operator::Negate => match x {
            Eval::Done(v) => eval_of(value_negate(v)),
            other => other,
        },
        _ => match try_bool_value(x) {
            Ok(b) => Eval::Done(Value::Bool(b)),
            Err(Eval::Fail(_)) => Eval::Done(Value::Bool(true)),
            Err(stopped) => stopped,
        },
    }
}

/// An outcome whose value is in public form.
fn public(r: Eval) -> (p: Eval)
    ensures
        p@ == r@,
        p matches Eval::Done(v) ==> held(v) is None,
{
    match r {
        Eval::Done(v) => Eval::Done(v.into_public()),
        other => other,
    }
}

/// Evaluate a call: an operator, or a function.
fn resolve_call(
    call: &CallExpr,
    Ghost(expr): Ghost<Expression>,
    scope: &Scope<'_>,
    host: &mut Replay<'_>,
) -> (r: Eval)
    requires
        expr.expr == Expr::Call(*call),
    ensures
        final(host).replies == old(host).replies,
        (r@, final(host).next as nat) == ev(
            expr,
            scope@,
            old(host).all(),
            old(host).next as nat,
        ),
        r matches Eval::Done(v) ==> held(v) == ev_leaf(
            expr,
            scope@,
            old(host).all(),
            old(host).next as nat,
        ),
    decreases call, 2nat,
{
    proof {
        reveal(ev);
        reveal(ev_leaf);
        reveal(ev_call);
    }
    let op = operator_of(call.func_name.as_str());
    let n: usize = call.args.len();
    if n == 3 {
        if let Operator::Conditional = op {
            return eval_conditional(&call.args, scope, host);
        }
    }
    if n == 2 {
        match op {
            Operator::LogicalOr => {
                return public(eval_logical(true, &call.args, scope, host));
            },
            Operator::LogicalAnd => {
                return public(eval_logical(false, &call.args, scope, host));
            },
            Operator::Index => {
                return eval_index(false, &call.args, scope, host);
            },
            Operator::OptIndex => {
                return public(eval_index(true, &call.args, scope, host));
            },
            Operator::Equals
            | Operator::NotEquals
            | Operator::In
            | Operator::OptSelect
            | Operator::Arith(_)
            | Operator::Ordered(_) => {
                return public(eval_strict(op, &call.args, scope, host));
            },
            _ => {},
        }
    }
    if n == 1 {
        match op {
            Operator::LogicalNot | Operator::Negate | Operator::NotStrictlyFalse => {
                return public(eval_unary(op, &call.args, scope, host));
            },
            _ => {},
        }
    }
    public(eval_function_call(call, scope, host))
}

/// Evaluate an expression as far as the replies go.
fn resolve_inner(expr: &Expression, scope: &Scope<'_>, host: &mut Replay<'_>) -> (r: Eval)
    ensures
        final(host).replies == old(host).replies,
        (r@, final(host).next as nat) == ev(
            *expr,
            scope@,
            old(host).all(),
            old(host).next as nat,
        ),
        r matches Eval::Done(v) ==> held(v) == ev_leaf(
            *expr,
            scope@,
            old(host).all(),
            old(host).next as nat,
        ),
    decreases expr, 0nat,
{
    proof {
        reveal(ev);
        reveal(ev_leaf);
        reveal(ev_elements);
        reveal(ev_entries);
        reveal(ev_struct);
        reveal(ev_comprehension);
        reveal(ev_comprehension_leaf);
    }
    match &expr.expr {
        Expr::Unspecified => Eval::Ask(Request::Unspecified),
        Expr::Literal(literal) => public(Eval::Done(literal.to_value())),
        Expr::Ident(name) => match scope.load_ident(name.as_str()) {
            Some(v) => Eval::Done(v),
            None => Eval::Fail(ExecutionError::UndeclaredReference(Arc::new(name.clone()))),
        },
        Expr::Select(select) => match resolve_inner(&select.operand, scope, host) {
            Eval::Done(left) => if select.test {
                public(eval_of(value_has_field(&left, select.field.as_str())))
            } else {
                eval_of(value_field(&left, select.field.as_str()))
            },
            other => other,
        },
        Expr::List(list) => public(eval_list_literal(list, scope, host)),
        Expr::CelMap(map) => public(eval_map_literal(&map.entries, scope, host)),
        Expr::Struct(lit) => public(eval_struct_literal(lit, scope, host)),
        Expr::Comprehension(c) => resolve_comprehension(c, scope, host),
        Expr::Call(call) => resolve_call(call, Ghost(*expr), scope, host),
    }
}

impl Value {
    /// Evaluate an expression as far as the replies go: to a value, to an error, or
    /// to the request that comes after the replies. Evaluation does not go past a part
    /// that is not specified.
    pub fn resolve(expr: &Expression, ctx: &Context, replies: &Vec<Reply>) -> (r: Eval)
        ensures
            r@ == eval(
                *expr,
                root_scope(*ctx),
                replies_view(replies@),
                0,
            ).0,
    {
        let scope = Scope::root(ctx);
        let mut host = Replay { replies, next: 0 };
        proof {
            reveal(ev);
        }
        resolve_inner(expr, &scope, &mut host)
    }

    /// Evaluate an expression on a heap. What the evaluation allocates young is given
    /// back when the outermost evaluation ends, and its value is handed out in public
    /// form.
    pub fn resolve_value(
        heap: &mut CelHeap,
        expr: &Expression,
        ctx: &Context,
        replies: &Vec<Reply>,
    ) -> (r: Eval)
        requires
            old(heap).wf(),
            old(heap).eval_depth_of() < u32::MAX,
        ensures
            r@ == eval(
                *expr,
                root_scope(*ctx),
                replies_view(replies@),
                0,
            ).0,
            match r {
                Eval::Done(v) => !(v is Interned),
                _ => true,
            },
            final(heap).wf(),
            final(heap).eval_depth_of() == old(heap).eval_depth_of(),
            final(heap).old_space() == old(heap).old_space(),
            final(heap).live_regions() == old(heap).live_regions(),
            final(heap).old_hosts() == old(heap).old_hosts(),
    {
        let scope = enter_eval_on(heap);
        match Value::resolve(expr, ctx, replies) {
            Eval::Done(v) => Eval::Done(scope.finish(heap, v)),
            other => {
                scope.abandon(heap);
                other
            },
        }
    }

    /// Evaluate expressions in turn, to the list of their values.
    pub fn resolve_all(exprs: &Vec<Expression>, ctx: &Context, replies: &Vec<Reply>) -> (r: Eval)
        ensures
            r@ == match eval_args(
                exprs@,
                exprs@.len(),
                root_scope(*ctx),
                replies_view(replies@),
                0,
            ).0 {
                ArgsV::Done(vs) => EvalV::Done(Val::List(vs)),
                ArgsV::Fail(e) => EvalV::Fail(e),
                ArgsV::Ask(q) => EvalV::Ask(q),
            },
    {
        let scope = Scope::root(ctx);
        let mut host = Replay { replies, next: 0 };
        proof {
            reveal(ev_args);
        }
        match resolve_args(exprs, &scope, &mut host) {
            Args::Done(vs) => Eval::Done(Value::List(ListRef::from_vec(vs))),
            Args::Fail(e) => Eval::Fail(e),
            Args::Ask(q) => Eval::Ask(q),
        }
    }
}

} // verus!
