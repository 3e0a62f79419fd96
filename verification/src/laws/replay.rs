//! Resuming an evaluation.
//!
//! An evaluation that needs a reply stops and is run again with one more. What
//! it did before it stopped, it does again.

use crate::ast::{
    operator, CallExpr, ComprehensionExpr, EntryExpr, Expr, Expression, ListExpr, StructExpr,
};
use crate::context::ScopeV;
use crate::model::Val;
use crate::semantics::{
    append_step, appends, arg, declines, eval, eval_append, eval_args, eval_call,
    eval_comprehension, eval_comprehension_leaf, eval_elements, eval_entries, eval_fields,
    eval_fold, eval_leaf, eval_loop, eval_steps, eval_steps_leaf, eval_struct, folds, is_guarded,
    singleton_element, to_bool, AppendV, ArgsV, EntriesV, EvalV, LoopV, ReplyV, RequestV,
};
use crate::runtime::interned::{held_items, in_public, HeldV};
use vstd::prelude::*;

verus! {

/// How two runs of one evaluation are related, the second with the replies of the
/// first and perhaps more. Each is given by whether it stopped to ask and by how many
/// replies it had taken then; the first had `have` replies and started after `n`.
pub open spec fn resumes(
    asked: bool,
    taken: nat,
    taken_again: nat,
    same: bool,
    have: nat,
    more: nat,
    n: nat,
) -> bool {
    &&& n <= taken <= have
    &&& n <= taken_again <= more
    &&& !asked ==> same
    &&& asked ==> taken == have
    &&& asked && have < more ==> taken_again > have
    &&& asked && have == more ==> taken_again == taken
}

/// Whether an outcome waits for a reply. What is not specified waits for none.
pub open spec fn awaits(q: RequestV) -> bool {
    !(q is Unspecified)
}

pub open spec fn pending(r: EvalV) -> bool {
    r matches EvalV::Ask(q) && awaits(q)
}

pub open spec fn args_pending(r: ArgsV) -> bool {
    r matches ArgsV::Ask(q) && awaits(q)
}

pub open spec fn entries_pending(r: EntriesV) -> bool {
    r matches EntriesV::Ask(q) && awaits(q)
}

pub open spec fn append_pending(r: AppendV) -> bool {
    r matches AppendV::Ask(q) && awaits(q)
}

pub open spec fn loop_pending(r: LoopV) -> bool {
    r matches LoopV::Ask(q) && awaits(q)
}

proof fn grow_args(
    args: Seq<Expression>,
    k: nat,
    s: ScopeV,
    replies: Seq<ReplyV>,
    more: Seq<ReplyV>,
    n: nat,
)
    requires
        replies.is_prefix_of(more),
        n <= replies.len(),
    ensures
        ({
            let a = eval_args(args, k, s, replies, n);
            let b = eval_args(args, k, s, more, n);
            resumes(args_pending(a.0), a.1, b.1, a == b, replies.len(), more.len(), n)
        }),
    decreases args, k,
{
    if k == 0 || k > args.len() {
    } else {
        grow_args(args, (k - 1) as nat, s, replies, more, n);
        let (prev, m) = eval_args(args, (k - 1) as nat, s, replies, n);
        assert(decreases_to!(args => args[k - 1]));
        grow(args[k - 1], s, replies, more, m);
        let (prev2, m2) = eval_args(args, (k - 1) as nat, s, more, n);
        grow(args[k - 1], s, more, more, m2);
    }
}

proof fn grow_elements(
    l: ListExpr,
    k: nat,
    s: ScopeV,
    replies: Seq<ReplyV>,
    more: Seq<ReplyV>,
    n: nat,
)
    requires
        replies.is_prefix_of(more),
        n <= replies.len(),
    ensures
        ({
            let a = eval_elements(l, k, s, replies, n);
            let b = eval_elements(l, k, s, more, n);
            resumes(args_pending(a.0), a.1, b.1, a == b, replies.len(), more.len(), n)
        }),
    decreases l, k,
{
    if k == 0 || k > l.elements@.len() {
    } else {
        grow_elements(l, (k - 1) as nat, s, replies, more, n);
        let (prev, m) = eval_elements(l, (k - 1) as nat, s, replies, n);
        assert(decreases_to!(l => l.elements));
        assert(decreases_to!(l.elements => l.elements@[k - 1]));
        grow(l.elements@[k - 1], s, replies, more, m);
        let (prev2, m2) = eval_elements(l, (k - 1) as nat, s, more, n);
        grow(l.elements@[k - 1], s, more, more, m2);
    }
}

proof fn grow_entries(
    entries: Seq<EntryExpr>,
    k: nat,
    s: ScopeV,
    replies: Seq<ReplyV>,
    more: Seq<ReplyV>,
    n: nat,
)
    requires
        replies.is_prefix_of(more),
        n <= replies.len(),
    ensures
        ({
            let a = eval_entries(entries, k, s, replies, n);
            let b = eval_entries(entries, k, s, more, n);
            resumes(entries_pending(a.0), a.1, b.1, a == b, replies.len(), more.len(), n)
        }),
    decreases entries, k,
{
    if k == 0 || k > entries.len() {
    } else {
        grow_entries(entries, (k - 1) as nat, s, replies, more, n);
        let (prev, m) = eval_entries(entries, (k - 1) as nat, s, replies, n);
        let (prev2, m2) = eval_entries(entries, (k - 1) as nat, s, more, n);
        match entries[k - 1] {
            EntryExpr::MapEntry { key, value, optional } => {
                assert(decreases_to!(entries => entries[k - 1]));
                assert(decreases_to!(entries[k - 1] => key));
                assert(decreases_to!(entries[k - 1] => value));
                grow(key, s, replies, more, m);
                let (x, p) = eval(key, s, replies, m);
                grow(value, s, replies, more, p);
                grow(key, s, more, more, m2);
                let (x2, p2) = eval(key, s, more, m2);
                grow(value, s, more, more, p2);
            },
            _ => {},
        }
    }
}

proof fn grow_fields(
    entries: Seq<EntryExpr>,
    k: nat,
    s: ScopeV,
    replies: Seq<ReplyV>,
    more: Seq<ReplyV>,
    n: nat,
)
    requires
        replies.is_prefix_of(more),
        n <= replies.len(),
    ensures
        ({
            let a = eval_fields(entries, k, s, replies, n);
            let b = eval_fields(entries, k, s, more, n);
            resumes(entries_pending(a.0), a.1, b.1, a == b, replies.len(), more.len(), n)
        }),
    decreases entries, k,
{
    if k == 0 || k > entries.len() {
    } else {
        grow_fields(entries, (k - 1) as nat, s, replies, more, n);
        let (prev, m) = eval_fields(entries, (k - 1) as nat, s, replies, n);
        let (prev2, m2) = eval_fields(entries, (k - 1) as nat, s, more, n);
        match entries[k - 1] {
            EntryExpr::StructField { field, value, optional } => {
                assert(decreases_to!(entries => entries[k - 1]));
                assert(decreases_to!(entries[k - 1] => value));
                grow(value, s, replies, more, m);
                grow(value, s, more, more, m2);
            },
            _ => {},
        }
    }
}

proof fn grow_append(
    c: ComprehensionExpr,
    items: Seq<HeldV>,
    i: nat,
    acc: Seq<Val>,
    s: ScopeV,
    replies: Seq<ReplyV>,
    more: Seq<ReplyV>,
    n: nat,
)
    requires
        replies.is_prefix_of(more),
        n <= replies.len(),
    ensures
        ({
            let a = eval_append(c, items, i, acc, s, replies, n);
            let b = eval_append(c, items, i, acc, s, more, n);
            resumes(append_pending(a.0), a.1, b.1, a == b, replies.len(), more.len(), n)
        }),
    decreases c, 0nat, items.len() - i,
{
    if i >= items.len() || !appends(c) {
    } else {
        let inner = s.bind(c.iter_var@, items[i as int]);
        let element = singleton_element(arg(append_step(c), 1));
        lemma_parts_are_smaller(c);
        let p = if is_guarded(c) {
            grow(arg(c.loop_step, 0), inner, replies, more, n);
            eval(arg(c.loop_step, 0), inner, replies, n).1
        } else {
            n
        };
        let p2 = if is_guarded(c) {
            eval(arg(c.loop_step, 0), inner, more, n).1
        } else {
            n
        };
        grow(element, inner, replies, more, p);
        grow(element, inner, more, more, p2);
        let (r, q) = eval(element, inner, replies, p);
        let (r2, q2) = eval(element, inner, more, p2);
        grow_append(c, items, i + 1, acc, inner, replies, more, p);
        grow_append(c, items, i + 1, acc, inner, more, more, p2);
        grow_append(c, items, i + 1, acc.push(r->Done_0), inner, replies, more, q);
        grow_append(c, items, i + 1, acc.push(r2->Done_0), inner, more, more, q2);
    }
}

/// What a comprehension evaluates per item is a part of it.
proof fn lemma_parts_are_smaller(c: ComprehensionExpr)
    ensures
        decreases_to!(c => c.loop_cond),
        decreases_to!(c => c.loop_step),
        is_guarded(c) ==> decreases_to!(c => arg(c.loop_step, 0)),
        appends(c) ==> decreases_to!(c => singleton_element(arg(append_step(c), 1))),
        folds(c, true) || folds(c, false) ==> decreases_to!(c => arg(c.loop_step, 1)),
{
}

proof fn grow_fold(
    c: ComprehensionExpr,
    and: bool,
    items: Seq<HeldV>,
    i: nat,
    accu: bool,
    s: ScopeV,
    replies: Seq<ReplyV>,
    more: Seq<ReplyV>,
    n: nat,
)
    requires
        replies.is_prefix_of(more),
        n <= replies.len(),
    ensures
        ({
            let a = eval_fold(c, and, items, i, accu, s, replies, n);
            let b = eval_fold(c, and, items, i, accu, s, more, n);
            resumes(pending(a.0), a.1, b.1, a == b, replies.len(), more.len(), n)
        }),
    decreases c, 0nat, items.len() - i,
{
    if i >= items.len() || accu != and || !folds(c, and) {
    } else {
        let inner = s.bind(c.iter_var@, items[i as int]);
        let pred = arg(c.loop_step, 1);
        lemma_parts_are_smaller(c);
        grow(pred, inner, replies, more, n);
        let (r, p) = eval(pred, inner, replies, n);
        let (r2, p2) = eval(pred, inner, more, n);
        grow_fold(c, and, items, i + 1, r->Done_0->Bool_0, inner, replies, more, p);
        grow_fold(c, and, items, i + 1, r2->Done_0->Bool_0, inner, more, more, p2);
    }
}

proof fn grow_loop(
    c: ComprehensionExpr,
    items: Seq<HeldV>,
    i: nat,
    s: ScopeV,
    replies: Seq<ReplyV>,
    more: Seq<ReplyV>,
    n: nat,
)
    requires
        replies.is_prefix_of(more),
        n <= replies.len(),
    ensures
        ({
            let a = eval_loop(c, items, i, s, replies, n);
            let b = eval_loop(c, items, i, s, more, n);
            resumes(loop_pending(a.0), a.1, b.1, a == b, replies.len(), more.len(), n)
        }),
    decreases c, 0nat, items.len() - i,
{
    if i >= items.len() {
    } else {
        lemma_parts_are_smaller(c);
        let inner = s.bind(c.iter_var@, items[i as int]);
        grow(c.loop_cond, s, replies, more, n);
        let (r, p) = eval(c.loop_cond, s, replies, n);
        let (r2, p2) = eval(c.loop_cond, s, more, n);
        grow(c.loop_step, inner, replies, more, p);
        grow(c.loop_step, inner, more, more, p2);
        let (v, q) = eval(c.loop_step, inner, replies, p);
        let (v2, q2) = eval(c.loop_step, inner, more, p2);
        let next = inner.bind(c.accu_var@, in_public(v->Done_0));
        let next2 = inner.bind(c.accu_var@, in_public(v2->Done_0));
        grow_loop(c, items, i + 1, next, replies, more, q);
        grow_loop(c, items, i + 1, next2, more, more, q2);
    }
}

proof fn grow_steps(
    c: ComprehensionExpr,
    init: Val,
    items: Seq<HeldV>,
    s: ScopeV,
    replies: Seq<ReplyV>,
    more: Seq<ReplyV>,
    n: nat,
)
    requires
        replies.is_prefix_of(more),
        n <= replies.len(),
    ensures
        ({
            let a = eval_steps(c, init, items, s, replies, n);
            let b = eval_steps(c, init, items, s, more, n);
            &&& resumes(pending(a.0), a.1, b.1, a == b, replies.len(), more.len(), n)
            &&& !pending(a.0) ==> eval_steps_leaf(c, init, items, s, replies, n)
                == eval_steps_leaf(c, init, items, s, more, n)
        }),
    decreases c, 1nat,
{
    if appends(c) && init is List {
        grow_append(c, items, 0, Seq::empty(), s, replies, more, n);
        let (r, p) = eval_append(c, items, 0, Seq::empty(), s, replies, n);
        let (r2, p2) = eval_append(c, items, 0, Seq::empty(), s, more, n);
        let end = r->Done_1.bind(c.accu_var@, in_public(Val::List(r->Done_0)));
        let end2 = r2->Done_1.bind(c.accu_var@, in_public(Val::List(r2->Done_0)));
        grow(c.result, end, replies, more, p);
        grow(c.result, end2, more, more, p2);
        if r is Done && !pending(eval(c.result, end, replies, p).0) {
            grow_leaf(c.result, end, replies, more, p);
        }
    } else if folds(c, true) || folds(c, false) {
        match init {
            Val::Bool(b) => grow_fold(c, folds(c, true), items, 0, b, s, replies, more, n),
            _ => {},
        }
    } else {
        let start = s.bind(c.accu_var@, in_public(init));
        grow_loop(c, items, 0, start, replies, more, n);
        let (r, p) = eval_loop(c, items, 0, start, replies, n);
        let (r2, p2) = eval_loop(c, items, 0, start, more, n);
        grow(c.result, r->Done_0, replies, more, p);
        grow(c.result, r2->Done_0, more, more, p2);
        if r is Done && !pending(eval(c.result, r->Done_0, replies, p).0) {
            grow_leaf(c.result, r->Done_0, replies, more, p);
        }
    }
}

proof fn grow_comprehension(
    c: ComprehensionExpr,
    s: ScopeV,
    replies: Seq<ReplyV>,
    more: Seq<ReplyV>,
    n: nat,
)
    requires
        replies.is_prefix_of(more),
        n <= replies.len(),
    ensures
        ({
            let a = eval_comprehension(c, s, replies, n);
            let b = eval_comprehension(c, s, more, n);
            &&& resumes(pending(a.0), a.1, b.1, a == b, replies.len(), more.len(), n)
            &&& !pending(a.0) ==> eval_comprehension_leaf(c, s, replies, n)
                == eval_comprehension_leaf(c, s, more, n)
        }),
    decreases c, 2nat,
{
    grow(c.accu_init, s, replies, more, n);
    let (init, p) = eval(c.accu_init, s, replies, n);
    let (init2, p2) = eval(c.accu_init, s, more, n);
    grow(c.iter_range, s, replies, more, p);
    grow(c.iter_range, s, more, more, p2);
    let (range, q) = eval(c.iter_range, s, replies, p);
    let (range2, q2) = eval(c.iter_range, s, more, p2);
    let items = held_items(range->Done_0, eval_leaf(c.iter_range, s, replies, p))->Ok_0;
    let items2 = held_items(range2->Done_0, eval_leaf(c.iter_range, s, more, p2))->Ok_0;
    if !pending(init) && !pending(range) {
        grow_leaf(c.iter_range, s, replies, more, p);
    }
    grow_steps(c, init->Done_0, items, s, replies, more, q);
    grow_steps(c, init2->Done_0, items2, s, more, more, q2);
}

proof fn grow_struct(
    st: StructExpr,
    s: ScopeV,
    replies: Seq<ReplyV>,
    more: Seq<ReplyV>,
    n: nat,
)
    requires
        replies.is_prefix_of(more),
        n <= replies.len(),
    ensures
        ({
            let a = eval_struct(st, s, replies, n);
            let b = eval_struct(st, s, more, n);
            resumes(pending(a.0), a.1, b.1, a == b, replies.len(), more.len(), n)
        }),
    decreases st, 0nat,
{
    let k = st.entries@.len();
    if n < replies.len() {
        grow_fields(st.entries@, k, s, replies, more, n + 1);
    }
    if n < more.len() {
        grow_fields(st.entries@, k, s, more, more, n + 1);
    }
}

proof fn grow_call(call: CallExpr, s: ScopeV, replies: Seq<ReplyV>, more: Seq<ReplyV>, n: nat)
    requires
        replies.is_prefix_of(more),
        n <= replies.len(),
    ensures
        ({
            let a = eval_call(call, s, replies, n);
            let b = eval_call(call, s, more, n);
            resumes(pending(a.0), a.1, b.1, a == b, replies.len(), more.len(), n)
        }),
    decreases call, 0nat,
{
    grow_args(call.args@, call.args@.len(), s, replies, more, n);
    let (args, m) = eval_args(call.args@, call.args@.len(), s, replies, n);
    let (args2, m2) = eval_args(call.args@, call.args@.len(), s, more, n);
    match call.target {
        Some(target) => {
            grow(*target, s, replies, more, m);
            grow(*target, s, more, more, m2);
            if declines(replies, m) && declines(replies, m + 1) {
                grow(*target, s, replies, more, m + 2);
            }
            if declines(more, m2) && declines(more, m2 + 1) {
                grow(*target, s, more, more, m2 + 2);
            }
        },
        None => {},
    }
}

proof fn grow_leaf(e: Expression, s: ScopeV, replies: Seq<ReplyV>, more: Seq<ReplyV>, n: nat)
    requires
        replies.is_prefix_of(more),
        n <= replies.len(),
        !pending(eval(e, s, replies, n).0),
    ensures
        eval_leaf(e, s, replies, n) == eval_leaf(e, s, more, n),
    decreases e, 0nat,
{
    match e.expr {
        Expr::Call(call) => {
            if call.args@.len() == 3 && operator(call.func_name@) is Conditional {
                assert(decreases_to!(e => call));
                assert(decreases_to!(call => call.args@[0]));
                assert(decreases_to!(call => call.args@[1]));
                assert(decreases_to!(call => call.args@[2]));
                grow(call.args@[0], s, replies, more, n);
                let (c, p) = eval(call.args@[0], s, replies, n);
                match to_bool(c) {
                    EvalV::Done(b) => if b == Val::Bool(true) {
                        grow_leaf(call.args@[1], s, replies, more, p);
                    } else {
                        grow_leaf(call.args@[2], s, replies, more, p);
                    },
                    _ => {},
                }
            } else if call.args@.len() == 2 && operator(call.func_name@) is Index {
                assert(decreases_to!(e => call));
                assert(decreases_to!(call => call.args@[0]));
                assert(decreases_to!(call => call.args@[1]));
                grow(call.args@[0], s, replies, more, n);
                let (c, p) = eval(call.args@[0], s, replies, n);
                grow_leaf(call.args@[0], s, replies, more, n);
                if c is Done && !(c->Done_0 is Optional) {
                    grow(call.args@[1], s, replies, more, p);
                }
            }
        },
        Expr::Select(sel) => {
            grow(*sel.operand, s, replies, more, n);
            grow_leaf(*sel.operand, s, replies, more, n);
        },
        Expr::Comprehension(c) => grow_comprehension(*c, s, replies, more, n),
        _ => {},
    }
}

proof fn grow_operator(
    e: Expression,
    s: ScopeV,
    replies: Seq<ReplyV>,
    more: Seq<ReplyV>,
    n: nat,
)
    requires
        e.expr is Call,
        replies.is_prefix_of(more),
        n <= replies.len(),
    ensures
        ({
            let a = eval(e, s, replies, n);
            let b = eval(e, s, more, n);
            resumes(pending(a.0), a.1, b.1, a == b, replies.len(), more.len(), n)
        }),
    decreases e, 1nat,
{
    let call = e.expr->Call_0;
    assert(decreases_to!(e => call));
    grow_call(call, s, replies, more, n);
    let k = call.args@.len();
    if k == 1 || k == 2 || k == 3 {
        assert(decreases_to!(call => call.args@[0]));
        grow(call.args@[0], s, replies, more, n);
        let (l, p) = eval(call.args@[0], s, replies, n);
        let (l2, p2) = eval(call.args@[0], s, more, n);
        if k == 2 || k == 3 {
            assert(decreases_to!(call => call.args@[1]));
            grow(call.args@[1], s, replies, more, p);
            grow(call.args@[1], s, more, more, p2);
            if !pending(l) {
                grow_leaf(call.args@[0], s, replies, more, n);
                if !pending(eval(call.args@[1], s, replies, p).0) {
                    grow_leaf(call.args@[1], s, replies, more, p);
                }
            }
        }
        if k == 3 {
            assert(decreases_to!(call => call.args@[2]));
            grow(call.args@[2], s, replies, more, p);
            grow(call.args@[2], s, more, more, p2);
        }
    }
}

proof fn grow(e: Expression, s: ScopeV, replies: Seq<ReplyV>, more: Seq<ReplyV>, n: nat)
    requires
        replies.is_prefix_of(more),
        n <= replies.len(),
    ensures
        ({
            let a = eval(e, s, replies, n);
            let b = eval(e, s, more, n);
            resumes(pending(a.0), a.1, b.1, a == b, replies.len(), more.len(), n)
        }),
    decreases e, 2nat,
{
    match e.expr {
        Expr::Select(sel) => {
            grow(*sel.operand, s, replies, more, n);
            if !pending(eval(*sel.operand, s, replies, n).0) {
                grow_leaf(*sel.operand, s, replies, more, n);
            }
        },
        Expr::List(l) => grow_elements(l, l.elements@.len(), s, replies, more, n),
        Expr::CelMap(m) => grow_entries(m.entries@, m.entries@.len(), s, replies, more, n),
        Expr::Struct(st) => grow_struct(st, s, replies, more, n),
        Expr::Comprehension(c) => grow_comprehension(*c, s, replies, more, n),
        Expr::Call(call) => grow_operator(e, s, replies, more, n),
        _ => {},
    }
}

/// Replies beyond those that an evaluation takes change nothing: what is finished
/// stays as it is.
pub proof fn a_finished_evaluation_needs_no_more(
    e: Expression,
    s: ScopeV,
    replies: Seq<ReplyV>,
    more: Seq<ReplyV>,
)
    requires
        replies.is_prefix_of(more),
        !pending(eval(e, s, replies, 0).0),
    ensures
        eval(e, s, more, 0) == eval(e, s, replies, 0),
{
    grow(e, s, replies, more, 0);
}

/// An evaluation asks only when the replies are all taken, and the next reply is
/// taken when it is run again with one more.
pub proof fn an_evaluation_takes_the_next_reply(
    e: Expression,
    s: ScopeV,
    replies: Seq<ReplyV>,
    reply: ReplyV,
)
    requires
        pending(eval(e, s, replies, 0).0),
    ensures
        eval(e, s, replies, 0).1 == replies.len(),
        eval(e, s, replies.push(reply), 0).1 == replies.len() + 1,
{
    grow(e, s, replies, replies.push(reply), 0);
}

} // verus!
