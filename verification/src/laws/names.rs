//! Names and scopes.
//!
//! What an expression comes to depends on the names that it mentions, and a
//! comprehension's variables are its own.

use crate::ast::{CallExpr, ComprehensionExpr, EntryExpr, Expr, Expression, ListExpr};
use crate::context::ScopeV;
use crate::laws::comprehension::{
    appending_is_the_plain_loop, by_the_loop, does_not_read, folding_is_the_plain_loop,
};
use crate::model::Val;
use crate::semantics::{
    append_step, appends, arg, eval, eval_append, eval_args, eval_call, eval_comprehension,
    eval_comprehension_leaf, eval_elements, eval_entries, eval_fields, eval_fold, eval_leaf,
    eval_loop, eval_steps, eval_steps_leaf, eval_struct, folds, is_guarded, singleton_element,
    AppendV, LoopV, ReplyV,
};
use crate::runtime::interned::{held_items, in_public, HeldV};
use vstd::prelude::*;

verus! {

/// Whether an expression leaves a name of the scope around it alone: it does not
/// occur, or only where a comprehension has bound it.
///
/// A comprehension's accumulator is bound in its condition, its step and its result.
/// The exception are the parts of `map`, `filter`, `all` and `exists` that are
/// evaluated per item: they are evaluated without it. Its variable is bound in the
/// step, and in the condition and the result once there was an item.
pub open spec fn ignores(e: Expression, name: Seq<char>) -> bool
    decreases e,
{
    match e.expr {
        Expr::Unspecified | Expr::Literal(_) => true,
        Expr::Ident(n) => n@ != name,
        Expr::Select(sel) => ignores(*sel.operand, name),
        Expr::List(l) => forall|i: int|
            0 <= i < l.elements@.len() ==> ignores(#[trigger] l.elements@[i], name),
        Expr::CelMap(m) => forall|i: int|
            0 <= i < m.entries@.len() ==> match #[trigger] m.entries@[i] {
                EntryExpr::MapEntry { key, value, .. } => ignores(key, name) && ignores(value, name),
                EntryExpr::StructField { value, .. } => ignores(value, name),
            },
        Expr::Struct(st) => forall|i: int|
            0 <= i < st.entries@.len() ==> match #[trigger] st.entries@[i] {
                EntryExpr::MapEntry { key, value, .. } => ignores(key, name) && ignores(value, name),
                EntryExpr::StructField { value, .. } => ignores(value, name),
            },
        Expr::Call(call) => {
            &&& match call.target {
                Some(t) => ignores(*t, name),
                None => true,
            }
            &&& forall|i: int| 0 <= i < call.args@.len() ==> ignores(#[trigger] call.args@[i], name)
        },
        Expr::Comprehension(c) => {
            &&& ignores(c.accu_init, name)
            &&& ignores(c.iter_range, name)
            &&& name != c.accu_var@ ==> ignores(c.loop_cond, name) && ignores(c.result, name)
            &&& name != c.accu_var@ && name != c.iter_var@ ==> ignores(c.loop_step, name)
            &&& name == c.accu_var@ ==> parts_ignore(c.loop_step, name)
        },
    }
}

/// Whether the parts of a step that are evaluated per item leave a name alone: the
/// condition and the element of `c ? @result + [x] : @result`, the element of
/// `@result + [x]`, the predicate of `@result && p` and `@result || p`.
pub open spec fn parts_ignore(step: Expression, name: Seq<char>) -> bool
    decreases step,
{
    match step.expr {
        Expr::Call(call) => {
            &&& call.args@.len() == 3 ==> ignores(call.args@[0], name) && parts_ignore(
                call.args@[1],
                name,
            )
            &&& call.args@.len() == 2 ==> ignores(call.args@[1], name)
        },
        _ => true,
    }
}

/// Whether two scopes differ in one name at most.
pub open spec fn alike(s: ScopeV, t: ScopeV, name: Seq<char>) -> bool {
    &&& s.globals == t.globals
    &&& s.leaves == t.leaves
    &&& s.locals.remove(name) == t.locals.remove(name)
}

proof fn lemma_alike(s: ScopeV, t: ScopeV, name: Seq<char>, other: Seq<char>, v: HeldV)
    requires
        alike(s, t, name),
    ensures
        alike(s.bind(other, v), t.bind(other, v), name),
        other == name ==> s.bind(other, v) == t.bind(other, v),
        other != name ==> s.load(other) == t.load(other) && s.leaf(other) == t.leaf(other),
        other != name ==> s.locals.dom().contains(other) == t.locals.dom().contains(other),
{
    let a = s.bind(other, v).locals;
    let b = t.bind(other, v).locals;
    assert forall|k: Seq<char>| k != name implies s.locals.dom().contains(k)
        == t.locals.dom().contains(k) && (s.locals.dom().contains(k) ==> s.locals[k]
        == t.locals[k]) by {
        assert(s.locals.remove(name).dom().contains(k) == t.locals.remove(name).dom().contains(k));
        assert(s.locals.dom().contains(k) ==> s.locals.remove(name)[k] == t.locals.remove(name)[k]);
    }
    if other == name {
        assert(a.remove(name) =~= s.locals.remove(name));
        assert(b.remove(name) =~= t.locals.remove(name));
        assert(a =~= b);
    } else {
        assert(a.remove(name) =~= s.locals.remove(name).insert(other, v));
        assert(b.remove(name) =~= t.locals.remove(name).insert(other, v));
    }
}

proof fn same_args(
    args: Seq<Expression>,
    k: nat,
    s: ScopeV,
    t: ScopeV,
    name: Seq<char>,
    replies: Seq<ReplyV>,
    n: nat,
)
    requires
        alike(s, t, name),
        forall|i: int| 0 <= i < args.len() ==> ignores(#[trigger] args[i], name),
    ensures
        eval_args(args, k, s, replies, n) == eval_args(args, k, t, replies, n),
    decreases args, k,
{
    if k == 0 || k > args.len() {
    } else {
        same_args(args, (k - 1) as nat, s, t, name, replies, n);
        let (prev, m) = eval_args(args, (k - 1) as nat, s, replies, n);
        assert(decreases_to!(args => args[k - 1]));
        same(args[k - 1], s, t, name, replies, m);
    }
}

proof fn same_elements(
    l: ListExpr,
    k: nat,
    s: ScopeV,
    t: ScopeV,
    name: Seq<char>,
    replies: Seq<ReplyV>,
    n: nat,
)
    requires
        alike(s, t, name),
        forall|i: int| 0 <= i < l.elements@.len() ==> ignores(#[trigger] l.elements@[i], name),
    ensures
        eval_elements(l, k, s, replies, n) == eval_elements(l, k, t, replies, n),
    decreases l, k,
{
    if k == 0 || k > l.elements@.len() {
    } else {
        same_elements(l, (k - 1) as nat, s, t, name, replies, n);
        let (prev, m) = eval_elements(l, (k - 1) as nat, s, replies, n);
        assert(decreases_to!(l => l.elements));
        assert(decreases_to!(l.elements => l.elements@[k - 1]));
        same(l.elements@[k - 1], s, t, name, replies, m);
    }
}

/// Whether every part of the entries leaves a name alone.
pub open spec fn entries_ignore(entries: Seq<EntryExpr>, name: Seq<char>) -> bool {
    forall|i: int|
        0 <= i < entries.len() ==> match #[trigger] entries[i] {
            EntryExpr::MapEntry { key, value, .. } => ignores(key, name) && ignores(value, name),
            EntryExpr::StructField { value, .. } => ignores(value, name),
        }
}

proof fn same_entries(
    entries: Seq<EntryExpr>,
    k: nat,
    s: ScopeV,
    t: ScopeV,
    name: Seq<char>,
    replies: Seq<ReplyV>,
    n: nat,
)
    requires
        alike(s, t, name),
        entries_ignore(entries, name),
    ensures
        eval_entries(entries, k, s, replies, n) == eval_entries(entries, k, t, replies, n),
    decreases entries, k,
{
    if k == 0 || k > entries.len() {
    } else {
        same_entries(entries, (k - 1) as nat, s, t, name, replies, n);
        let (prev, m) = eval_entries(entries, (k - 1) as nat, s, replies, n);
        match entries[k - 1] {
            EntryExpr::MapEntry { key, value, optional } => {
                assert(decreases_to!(entries => entries[k - 1]));
                assert(decreases_to!(entries[k - 1] => key));
                assert(decreases_to!(entries[k - 1] => value));
                same(key, s, t, name, replies, m);
                let (x, p) = eval(key, s, replies, m);
                same(value, s, t, name, replies, p);
            },
            _ => {},
        }
    }
}

proof fn same_fields(
    entries: Seq<EntryExpr>,
    k: nat,
    s: ScopeV,
    t: ScopeV,
    name: Seq<char>,
    replies: Seq<ReplyV>,
    n: nat,
)
    requires
        alike(s, t, name),
        entries_ignore(entries, name),
    ensures
        eval_fields(entries, k, s, replies, n) == eval_fields(entries, k, t, replies, n),
    decreases entries, k,
{
    if k == 0 || k > entries.len() {
    } else {
        same_fields(entries, (k - 1) as nat, s, t, name, replies, n);
        let (prev, m) = eval_fields(entries, (k - 1) as nat, s, replies, n);
        match entries[k - 1] {
            EntryExpr::StructField { field, value, optional } => {
                assert(decreases_to!(entries => entries[k - 1]));
                assert(decreases_to!(entries[k - 1] => value));
                same(value, s, t, name, replies, m);
            },
            _ => {},
        }
    }
}

/// What a comprehension evaluates per item is a part of it, and leaves alone what
/// its step does.
proof fn lemma_parts(c: ComprehensionExpr, name: Seq<char>)
    requires
        parts_ignore(c.loop_step, name) || ignores(c.loop_step, name),
    ensures
        is_guarded(c) && appends(c) ==> decreases_to!(c => arg(c.loop_step, 0)) && ignores(
            arg(c.loop_step, 0),
            name,
        ),
        appends(c) ==> decreases_to!(c => singleton_element(arg(append_step(c), 1))) && ignores(
            singleton_element(arg(append_step(c), 1)),
            name,
        ),
        folds(c, true) || folds(c, false) ==> decreases_to!(c => arg(c.loop_step, 1)) && ignores(
            arg(c.loop_step, 1),
            name,
        ),
{
    if appends(c) {
        let step = append_step(c);
        if is_guarded(c) {
            assert(parts_ignore(step, name) || ignores(step, name));
        }
        let list = arg(step, 1);
        assert(ignores(list, name));
        match list.expr {
            Expr::List(l) => {
                assert(ignores(l.elements@[0], name));
            },
            _ => {},
        }
    }
}

/// Appending loops in like scopes end alike.
pub open spec fn append_alike(a: (AppendV, nat), b: (AppendV, nat), name: Seq<char>) -> bool {
    a.1 == b.1 && match (a.0, b.0) {
        (AppendV::Done(x, s), AppendV::Done(y, t)) => x == y && alike(s, t, name),
        _ => a.0 == b.0,
    }
}

/// Loops in like scopes end alike.
pub open spec fn loop_alike(a: (LoopV, nat), b: (LoopV, nat), name: Seq<char>) -> bool {
    a.1 == b.1 && match (a.0, b.0) {
        (LoopV::Done(s), LoopV::Done(t)) => alike(s, t, name),
        _ => a.0 == b.0,
    }
}

proof fn same_append(
    c: ComprehensionExpr,
    items: Seq<HeldV>,
    i: nat,
    acc: Seq<Val>,
    s: ScopeV,
    t: ScopeV,
    name: Seq<char>,
    replies: Seq<ReplyV>,
    n: nat,
)
    requires
        alike(s, t, name),
        name != c.iter_var@ ==> parts_ignore(c.loop_step, name) || ignores(c.loop_step, name),
    ensures
        append_alike(
            eval_append(c, items, i, acc, s, replies, n),
            eval_append(c, items, i, acc, t, replies, n),
            name,
        ),
    decreases c, 0nat, items.len() - i,
{
    if i >= items.len() || !appends(c) {
    } else {
        let inner = s.bind(c.iter_var@, items[i as int]);
        let inner2 = t.bind(c.iter_var@, items[i as int]);
        lemma_alike(s, t, name, c.iter_var@, items[i as int]);
        let element = singleton_element(arg(append_step(c), 1));
        if name != c.iter_var@ {
            lemma_parts(c, name);
            let p = if is_guarded(c) {
                same(arg(c.loop_step, 0), inner, inner2, name, replies, n);
                eval(arg(c.loop_step, 0), inner, replies, n).1
            } else {
                n
            };
            same(element, inner, inner2, name, replies, p);
            let (r, q) = eval(element, inner, replies, p);
            same_append(c, items, i + 1, acc, inner, inner2, name, replies, p);
            same_append(c, items, i + 1, acc.push(r->Done_0), inner, inner2, name, replies, q);
        } else {
            assert(inner == inner2);
        }
    }
}

proof fn same_fold(
    c: ComprehensionExpr,
    and: bool,
    items: Seq<HeldV>,
    i: nat,
    accu: bool,
    s: ScopeV,
    t: ScopeV,
    name: Seq<char>,
    replies: Seq<ReplyV>,
    n: nat,
)
    requires
        alike(s, t, name),
        name != c.iter_var@ ==> parts_ignore(c.loop_step, name) || ignores(c.loop_step, name),
    ensures
        eval_fold(c, and, items, i, accu, s, replies, n) == eval_fold(
            c,
            and,
            items,
            i,
            accu,
            t,
            replies,
            n,
        ),
    decreases c, 0nat, items.len() - i,
{
    if i >= items.len() || accu != and || !folds(c, and) {
    } else {
        let inner = s.bind(c.iter_var@, items[i as int]);
        let inner2 = t.bind(c.iter_var@, items[i as int]);
        lemma_alike(s, t, name, c.iter_var@, items[i as int]);
        if name != c.iter_var@ {
            lemma_parts(c, name);
            same(arg(c.loop_step, 1), inner, inner2, name, replies, n);
            let (r, p) = eval(arg(c.loop_step, 1), inner, replies, n);
            same_fold(
                c,
                and,
                items,
                i + 1,
                r->Done_0->Bool_0,
                inner,
                inner2,
                name,
                replies,
                p,
            );
        } else {
            assert(inner == inner2);
        }
    }
}

proof fn same_loop(
    c: ComprehensionExpr,
    items: Seq<HeldV>,
    i: nat,
    s: ScopeV,
    t: ScopeV,
    name: Seq<char>,
    replies: Seq<ReplyV>,
    n: nat,
)
    requires
        alike(s, t, name),
        ignores(c.loop_cond, name),
        name != c.iter_var@ ==> ignores(c.loop_step, name),
    ensures
        loop_alike(
            eval_loop(c, items, i, s, replies, n),
            eval_loop(c, items, i, t, replies, n),
            name,
        ),
    decreases c, 0nat, items.len() - i,
{
    if i >= items.len() {
    } else {
        assert(decreases_to!(c => c.loop_cond));
        assert(decreases_to!(c => c.loop_step));
        same(c.loop_cond, s, t, name, replies, n);
        let (r, p) = eval(c.loop_cond, s, replies, n);
        let inner = s.bind(c.iter_var@, items[i as int]);
        let inner2 = t.bind(c.iter_var@, items[i as int]);
        lemma_alike(s, t, name, c.iter_var@, items[i as int]);
        if name != c.iter_var@ {
            same(c.loop_step, inner, inner2, name, replies, p);
        } else {
            assert(inner == inner2);
        }
        let (v, q) = eval(c.loop_step, inner, replies, p);
        lemma_alike(inner, inner2, name, c.accu_var@, in_public(v->Done_0));
        same_loop(
            c,
            items,
            i + 1,
            inner.bind(c.accu_var@, in_public(v->Done_0)),
            inner2.bind(c.accu_var@, in_public(v->Done_0)),
            name,
            replies,
            q,
        );
    }
}

proof fn same_steps(
    c: ComprehensionExpr,
    init: Val,
    items: Seq<HeldV>,
    s: ScopeV,
    t: ScopeV,
    name: Seq<char>,
    replies: Seq<ReplyV>,
    n: nat,
)
    requires
        alike(s, t, name),
        name != c.accu_var@ ==> ignores(c.loop_cond, name) && ignores(c.result, name),
        name != c.accu_var@ && name != c.iter_var@ ==> ignores(c.loop_step, name),
        name == c.accu_var@ ==> parts_ignore(c.loop_step, name),
    ensures
        eval_steps(c, init, items, s, replies, n) == eval_steps(c, init, items, t, replies, n),
        eval_steps_leaf(c, init, items, s, replies, n) == eval_steps_leaf(
            c,
            init,
            items,
            t,
            replies,
            n,
        ),
    decreases c, 1nat,
{
    if appends(c) && init is List {
        same_append(c, items, 0, Seq::empty(), s, t, name, replies, n);
        let (r, p) = eval_append(c, items, 0, Seq::empty(), s, replies, n);
        let (r2, p2) = eval_append(c, items, 0, Seq::empty(), t, replies, n);
        match (r, r2) {
            (AppendV::Done(list, u), AppendV::Done(list2, w)) => {
                lemma_alike(u, w, name, c.accu_var@, in_public(Val::List(list)));
                if name != c.accu_var@ {
                    let end = u.bind(c.accu_var@, in_public(Val::List(list)));
                    let end2 = w.bind(c.accu_var@, in_public(Val::List(list)));
                    same(c.result, end, end2, name, replies, p);
                    same_leaf(c.result, end, end2, name, replies, p);
                }
            },
            _ => {},
        }
    } else if folds(c, true) || folds(c, false) {
        match init {
            Val::Bool(b) => same_fold(c, folds(c, true), items, 0, b, s, t, name, replies, n),
            _ => {},
        }
    } else {
        let start = s.bind(c.accu_var@, in_public(init));
        let start2 = t.bind(c.accu_var@, in_public(init));
        lemma_alike(s, t, name, c.accu_var@, in_public(init));
        if name != c.accu_var@ {
            same_loop(c, items, 0, start, start2, name, replies, n);
            let (r, p) = eval_loop(c, items, 0, start, replies, n);
            let (r2, p2) = eval_loop(c, items, 0, start2, replies, n);
            match (r, r2) {
                (LoopV::Done(u), LoopV::Done(w)) => {
                    same(c.result, u, w, name, replies, p);
                    same_leaf(c.result, u, w, name, replies, p);
                },
                _ => {},
            }
        } else {
            assert(start == start2);
        }
    }
}

proof fn same_call(
    call: CallExpr,
    s: ScopeV,
    t: ScopeV,
    name: Seq<char>,
    replies: Seq<ReplyV>,
    n: nat,
)
    requires
        alike(s, t, name),
        call.target matches Some(target) ==> ignores(*target, name),
        forall|i: int| 0 <= i < call.args@.len() ==> ignores(#[trigger] call.args@[i], name),
    ensures
        eval_call(call, s, replies, n) == eval_call(call, t, replies, n),
    decreases call, 0nat,
{
    same_args(call.args@, call.args@.len(), s, t, name, replies, n);
    let (args, m) = eval_args(call.args@, call.args@.len(), s, replies, n);
    match call.target {
        Some(target) => {
            same(*target, s, t, name, replies, m);
            same(*target, s, t, name, replies, m + 2);
            match target.expr {
                Expr::Ident(prefix) => lemma_alike(s, t, name, prefix@, in_public(Val::Null)),
                _ => {},
            }
        },
        None => {},
    }
}

proof fn same_leaf(
    e: Expression,
    s: ScopeV,
    t: ScopeV,
    name: Seq<char>,
    replies: Seq<ReplyV>,
    n: nat,
)
    requires
        alike(s, t, name),
        ignores(e, name),
    ensures
        eval_leaf(e, s, replies, n) == eval_leaf(e, t, replies, n),
    decreases e, 0nat,
{
    match e.expr {
        Expr::Ident(x) => lemma_alike(s, t, name, x@, in_public(Val::Null)),
        Expr::Select(sel) => {
            same(*sel.operand, s, t, name, replies, n);
            same_leaf(*sel.operand, s, t, name, replies, n);
        },
        Expr::Comprehension(c) => {
            same(c.accu_init, s, t, name, replies, n);
            let (init, p) = eval(c.accu_init, s, replies, n);
            same(c.iter_range, s, t, name, replies, p);
            same_leaf(c.iter_range, s, t, name, replies, p);
            let (range, q) = eval(c.iter_range, s, replies, p);
            let items = held_items(
                range->Done_0,
                eval_leaf(c.iter_range, s, replies, p),
            )->Ok_0;
            same_steps(*c, init->Done_0, items, s, t, name, replies, q);
            assert(eval_comprehension_leaf(*c, s, replies, n) == eval_comprehension_leaf(
                *c,
                t,
                replies,
                n,
            ));
        },
        Expr::Call(call) => {
            assert(decreases_to!(e => call));
            let k = call.args@.len();
            if k == 2 || k == 3 {
                assert(decreases_to!(call => call.args@[0]));
                assert(decreases_to!(call => call.args@[1]));
                same(call.args@[0], s, t, name, replies, n);
                let (c, p) = eval(call.args@[0], s, replies, n);
                if k == 3 {
                    assert(decreases_to!(call => call.args@[2]));
                    same_leaf(call.args@[1], s, t, name, replies, p);
                    same_leaf(call.args@[2], s, t, name, replies, p);
                } else {
                    same_leaf(call.args@[0], s, t, name, replies, n);
                    same(call.args@[1], s, t, name, replies, p);
                }
            }
        },
        _ => {},
    }
}

proof fn same_operator(
    e: Expression,
    s: ScopeV,
    t: ScopeV,
    name: Seq<char>,
    replies: Seq<ReplyV>,
    n: nat,
)
    requires
        e.expr is Call,
        alike(s, t, name),
        ignores(e, name),
    ensures
        eval(e, s, replies, n) == eval(e, t, replies, n),
    decreases e, 1nat,
{
    let call = e.expr->Call_0;
    assert(decreases_to!(e => call));
    same_call(call, s, t, name, replies, n);
    let k = call.args@.len();
    if k == 1 || k == 2 || k == 3 {
        assert(decreases_to!(call => call.args@[0]));
        same(call.args@[0], s, t, name, replies, n);
        let (l, p) = eval(call.args@[0], s, replies, n);
        if k == 2 || k == 3 {
            assert(decreases_to!(call => call.args@[1]));
            same(call.args@[1], s, t, name, replies, p);
            same_leaf(call.args@[0], s, t, name, replies, n);
            same_leaf(call.args@[1], s, t, name, replies, p);
        }
        if k == 3 {
            assert(decreases_to!(call => call.args@[2]));
            same(call.args@[2], s, t, name, replies, p);
        }
    }
}

proof fn same(e: Expression, s: ScopeV, t: ScopeV, name: Seq<char>, replies: Seq<ReplyV>, n: nat)
    requires
        alike(s, t, name),
        ignores(e, name),
    ensures
        eval(e, s, replies, n) == eval(e, t, replies, n),
    decreases e, 2nat,
{
    match e.expr {
        Expr::Ident(x) => lemma_alike(s, t, name, x@, in_public(Val::Null)),
        Expr::Select(sel) => {
            same(*sel.operand, s, t, name, replies, n);
            same_leaf(*sel.operand, s, t, name, replies, n);
        },
        Expr::List(l) => same_elements(l, l.elements@.len(), s, t, name, replies, n),
        Expr::CelMap(m) => {
            assert(entries_ignore(m.entries@, name));
            same_entries(m.entries@, m.entries@.len(), s, t, name, replies, n);
        },
        Expr::Struct(st) => {
            assert(entries_ignore(st.entries@, name));
            same_fields(st.entries@, st.entries@.len(), s, t, name, replies, n + 1);
            assert(eval_struct(st, s, replies, n) == eval_struct(st, t, replies, n));
        },
        Expr::Comprehension(c) => {
            same(c.accu_init, s, t, name, replies, n);
            let (init, p) = eval(c.accu_init, s, replies, n);
            same(c.iter_range, s, t, name, replies, p);
            let (range, q) = eval(c.iter_range, s, replies, p);
            same_leaf(c.iter_range, s, t, name, replies, p);
            let items = held_items(
                range->Done_0,
                eval_leaf(c.iter_range, s, replies, p),
            )->Ok_0;
            same_steps(*c, init->Done_0, items, s, t, name, replies, q);
            assert(eval_comprehension(*c, s, replies, n) == eval_comprehension(*c, t, replies, n));
        },
        Expr::Call(call) => same_operator(e, s, t, name, replies, n),
        _ => {},
    }
}

/// An expression comes to the same whatever a name stands for that it leaves alone.
pub proof fn a_name_that_does_not_occur_does_not_matter(
    e: Expression,
    name: Seq<char>,
    s: ScopeV,
    v: HeldV,
    replies: Seq<ReplyV>,
    n: nat,
)
    requires
        ignores(e, name),
    ensures
        eval(e, s.bind(name, v), replies, n) == eval(e, s, replies, n),
{
    assert(s.bind(name, v).locals.remove(name) =~= s.locals.remove(name));
    same(e, s.bind(name, v), s, name, replies, n);
}

proof fn lemma_does_not_read(e: Expression, name: Seq<char>)
    requires
        ignores(e, name),
    ensures
        does_not_read(e, name),
{
    assert forall|s: ScopeV, v: HeldV, replies: Seq<ReplyV>, n: nat|
        #![trigger eval(e, s.bind(name, v), replies, n)]
        eval(e, s.bind(name, v), replies, n) == eval(e, s, replies, n) by {
        a_name_that_does_not_occur_does_not_matter(e, name, s, v, replies, n);
    }
}

/// `map`, `filter`, `all` and `exists` give what the plain loop gives, wherever the
/// accumulator does not occur in the parts that are evaluated per item.
pub proof fn shortcuts_are_the_plain_loop(
    c: ComprehensionExpr,
    init: Val,
    items: Seq<HeldV>,
    s: ScopeV,
    replies: Seq<ReplyV>,
    n: nat,
)
    requires
        parts_ignore(c.loop_step, c.accu_var@),
        c.iter_var@ != c.accu_var@,
        appends(c) ==> init == Val::List(Seq::empty()),
        !appends(c) && (folds(c, true) || folds(c, false)) ==> init is Bool,
    ensures
        eval_steps(c, init, items, s, replies, n) == by_the_loop(c, init, items, s, replies, n),
{
    lemma_parts(c, c.accu_var@);
    if appends(c) {
        if is_guarded(c) {
            lemma_does_not_read(arg(c.loop_step, 0), c.accu_var@);
        }
        lemma_does_not_read(singleton_element(arg(append_step(c), 1)), c.accu_var@);
        appending_is_the_plain_loop(c, items, s, replies, n);
    } else if folds(c, true) || folds(c, false) {
        lemma_does_not_read(arg(c.loop_step, 1), c.accu_var@);
        folding_is_the_plain_loop(
            c,
            folds(c, true),
            init->Bool_0,
            items,
            s,
            replies,
            n,
        );
    }
}

} // verus!
