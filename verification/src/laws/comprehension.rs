//! `map`, `filter`, `all` and `exists`.
//!
//! The comprehensions that they expand to are evaluated without the accumulator
//! in sight. That gives what the plain loop gives, wherever the parts that are
//! evaluated per item do not read the accumulator.

use crate::ast::{is_ident, ComprehensionExpr, Expr, Expression};
use crate::context::ScopeV;
use crate::model::Val;
use crate::semantics::{
    append_step, appends, arg, eval, eval_append, eval_elements, eval_fold, eval_loop, eval_steps,
    folds, is_append, is_guarded, is_singleton, singleton_element, to_bool, AppendV, EvalV, LoopV,
    ReplyV,
};
use crate::runtime::interned::{in_public, HeldV};
use vstd::prelude::*;

verus! {

/// A comprehension as the plain loop evaluates it, on its start and its items.
pub open spec fn by_the_loop(
    c: ComprehensionExpr,
    init: Val,
    items: Seq<HeldV>,
    s: ScopeV,
    replies: Seq<ReplyV>,
    n: nat,
) -> (EvalV, nat) {
    let (r, p) = eval_loop(c, items, 0, s.bind(c.accu_var@, in_public(init)), replies, n);
    match r {
        LoopV::Done(inner) => eval(c.result, inner, replies, p),
        LoopV::Fail(e) => (EvalV::Fail(e), p),
        LoopV::Ask(a) => (EvalV::Ask(a), p),
    }
}

/// Whether an expression does not read a name.
pub open spec fn does_not_read(e: Expression, name: Seq<char>) -> bool {
    forall|s: ScopeV, v: HeldV, replies: Seq<ReplyV>, n: nat|
        #![trigger eval(e, s.bind(name, v), replies, n)]
        eval(e, s.bind(name, v), replies, n) == eval(e, s, replies, n)
}

/// Whether the parts of an appending comprehension that are evaluated per item do
/// not read its accumulator.
pub open spec fn append_parts_are_free(c: ComprehensionExpr) -> bool {
    &&& is_guarded(c) ==> does_not_read(arg(c.loop_step, 0), c.accu_var@)
    &&& does_not_read(singleton_element(arg(append_step(c), 1)), c.accu_var@)
}

proof fn lemma_ident(e: Expression, name: Seq<char>, v: Val, s: ScopeV, replies: Seq<ReplyV>, n: nat)
    requires
        is_ident(e, name),
        s.load(name) == Some(v),
    ensures
        eval(e, s, replies, n) == (EvalV::Done(v), n),
{
}

proof fn lemma_singleton(e: Expression, s: ScopeV, replies: Seq<ReplyV>, n: nat)
    requires
        is_singleton(e),
    ensures
        ({
            let (r, q) = eval(singleton_element(e), s, replies, n);
            eval(e, s, replies, n) == match r {
                EvalV::Done(v) => (EvalV::Done(Val::List(seq![v])), q),
                _ => (r, q),
            }
        }),
{
    match e.expr {
        Expr::List(l) => {
            let none = eval_elements(l, 0, s, replies, n);
            let one = eval_elements(l, 1, s, replies, n);
            assert(!l.optional_indices@.contains(0usize));
            assert(Seq::<Val>::empty().push(eval(l.elements@[0], s, replies, n).0->Done_0) =~= seq![
                eval(l.elements@[0], s, replies, n).0->Done_0,
            ]);
        },
        _ => {},
    }
}

/// What `@result + [x]` adds to the list so far.
proof fn lemma_append(
    e: Expression,
    accu: Seq<char>,
    acc: Seq<Val>,
    s: ScopeV,
    replies: Seq<ReplyV>,
    n: nat,
)
    requires
        is_append(e, accu),
        s.load(accu) == Some(Val::List(acc)),
    ensures
        ({
            let (r, q) = eval(singleton_element(arg(e, 1)), s, replies, n);
            eval(e, s, replies, n) == match r {
                EvalV::Done(v) => (EvalV::Done(Val::List(acc.push(v))), q),
                _ => (r, q),
            }
        }),
{
    lemma_ident(arg(e, 0), accu, Val::List(acc), s, replies, n);
    lemma_singleton(arg(e, 1), s, replies, n);
    let (r, q) = eval(singleton_element(arg(e, 1)), s, replies, n);
    assert(acc + seq![r->Done_0] =~= acc.push(r->Done_0));
}

/// The scope of the plain loop is that of the appending one, with the accumulator.
proof fn lemma_scopes(
    s: ScopeV,
    accu: Seq<char>,
    var: Seq<char>,
    old_accu: HeldV,
    item: HeldV,
    new_accu: HeldV,
)
    requires
        accu != var,
    ensures
        s.bind(accu, old_accu).bind(var, item) == s.bind(var, item).bind(accu, old_accu),
        s.bind(accu, old_accu).bind(var, item).bind(accu, new_accu) == s.bind(var, item).bind(
            accu,
            new_accu,
        ),
{
    assert(s.bind(accu, old_accu).bind(var, item).locals =~= s.bind(var, item).bind(
        accu,
        old_accu,
    ).locals);
    assert(s.bind(accu, old_accu).bind(var, item).bind(accu, new_accu).locals =~= s.bind(
        var,
        item,
    ).bind(accu, new_accu).locals);
}

proof fn lemma_append_loop(
    c: ComprehensionExpr,
    items: Seq<HeldV>,
    i: nat,
    acc: Seq<Val>,
    s: ScopeV,
    replies: Seq<ReplyV>,
    n: nat,
)
    requires
        appends(c),
        append_parts_are_free(c),
        c.iter_var@ != c.accu_var@,
        i <= items.len(),
    ensures
        ({
            let (r, p) = eval_append(c, items, i, acc, s, replies, n);
            let start = s.bind(c.accu_var@, in_public(Val::List(acc)));
            eval_loop(c, items, i, start, replies, n) == match r {
                AppendV::Done(list, inner) => (
                    LoopV::Done(inner.bind(c.accu_var@, in_public(Val::List(list)))),
                    p,
                ),
                AppendV::Fail(e) => (LoopV::Fail(e), p),
                AppendV::Ask(q) => (LoopV::Ask(q), p),
            }
        }),
    decreases items.len() - i,
{
    if i < items.len() {
        let accu = c.accu_var@;
        let outer = s.bind(accu, in_public(Val::List(acc)));
        let inner = s.bind(c.iter_var@, items[i as int]);
        let full = outer.bind(c.iter_var@, items[i as int]);
        assert(eval(c.loop_cond, outer, replies, n) == (EvalV::Done(Val::Bool(true)), n));
        lemma_scopes(
            s,
            accu,
            c.iter_var@,
            in_public(Val::List(acc)),
            items[i as int],
            in_public(Val::List(acc)),
        );
        assert(full == inner.bind(accu, in_public(Val::List(acc))));
        assert(full.load(accu) == Some(Val::List(acc)));
        let element = singleton_element(arg(append_step(c), 1));
        let start = if is_guarded(c) {
            let (g, q) = eval(arg(c.loop_step, 0), inner, replies, n);
            assert(eval(arg(c.loop_step, 0), full, replies, n) == (g, q));
            lemma_ident(arg(c.loop_step, 2), accu, Val::List(acc), full, replies, q);
            q
        } else {
            n
        };
        lemma_append(append_step(c), accu, acc, full, replies, start);
        let (r, q) = eval(element, inner, replies, start);
        assert(eval(element, full, replies, start) == (r, q));
        let appended = match r {
            EvalV::Done(v) => (EvalV::Done(Val::List(acc.push(v))), q),
            _ => (r, q),
        };
        assert(eval(append_step(c), full, replies, start) == appended);
        if is_guarded(c) {
            let (g, q) = eval(arg(c.loop_step, 0), inner, replies, n);
            assert(eval(c.loop_step, full, replies, n) == match to_bool(g) {
                EvalV::Done(b) => if b == Val::Bool(true) {
                    appended
                } else {
                    (EvalV::Done(Val::List(acc)), q)
                },
                other => (other, q),
            });
        }
        match r {
            EvalV::Done(v) => {
                lemma_scopes(
                    s,
                    accu,
                    c.iter_var@,
                    in_public(Val::List(acc)),
                    items[i as int],
                    in_public(Val::List(acc.push(v))),
                );
                lemma_append_loop(c, items, i + 1, acc.push(v), inner, replies, q);
            },
            _ => {},
        }
        lemma_append_loop(c, items, i + 1, acc, inner, replies, start);
    }
}

/// `map` and `filter` give what the plain loop gives, which builds the list anew for
/// each element: the list of what the elements come to, in order, or the first error.
pub proof fn appending_is_the_plain_loop(
    c: ComprehensionExpr,
    items: Seq<HeldV>,
    s: ScopeV,
    replies: Seq<ReplyV>,
    n: nat,
)
    requires
        appends(c),
        append_parts_are_free(c),
        c.iter_var@ != c.accu_var@,
    ensures
        eval_steps(c, Val::List(Seq::empty()), items, s, replies, n) == by_the_loop(
            c,
            Val::List(Seq::empty()),
            items,
            s,
            replies,
            n,
        ),
{
    lemma_append_loop(c, items, 0, Seq::empty(), s, replies, n);
}

proof fn lemma_fold_loop(
    c: ComprehensionExpr,
    and: bool,
    items: Seq<HeldV>,
    i: nat,
    accu: bool,
    s: ScopeV,
    replies: Seq<ReplyV>,
    n: nat,
)
    requires
        folds(c, and),
        does_not_read(arg(c.loop_step, 1), c.accu_var@),
        c.iter_var@ != c.accu_var@,
        i <= items.len(),
    ensures
        ({
            let (r, p) = eval_fold(c, and, items, i, accu, s, replies, n);
            let (t, q) = eval_loop(
                c,
                items,
                i,
                s.bind(c.accu_var@, in_public(Val::Bool(accu))),
                replies,
                n,
            );
            p == q && match t {
                LoopV::Done(inner) => r == EvalV::Done(inner.load(c.accu_var@)->0) && inner.load(
                    c.accu_var@,
                ) is Some,
                LoopV::Fail(e) => r == EvalV::Fail(e),
                LoopV::Ask(a) => r == EvalV::Ask(a),
            }
        }),
    decreases items.len() - i,
{
    if i < items.len() {
        let name = c.accu_var@;
        let outer = s.bind(name, in_public(Val::Bool(accu)));
        let inner = s.bind(c.iter_var@, items[i as int]);
        let full = outer.bind(c.iter_var@, items[i as int]);
        let cond = arg(c.loop_cond, 0);
        if and {
            lemma_ident(cond, name, Val::Bool(accu), outer, replies, n);
        } else {
            lemma_ident(arg(cond, 0), name, Val::Bool(accu), outer, replies, n);
            assert(eval(cond, outer, replies, n) == (EvalV::Done(Val::Bool(!accu)), n));
        }
        assert(eval(c.loop_cond, outer, replies, n) == (
            EvalV::Done(Val::Bool(accu == and)),
            n,
        ));
        if accu == and {
            lemma_scopes(
                s,
                name,
                c.iter_var@,
                in_public(Val::Bool(accu)),
                items[i as int],
                in_public(Val::Null),
            );
            assert(full == inner.bind(name, in_public(Val::Bool(accu))));
            lemma_ident(arg(c.loop_step, 0), name, Val::Bool(accu), full, replies, n);
            let (r, q) = eval(arg(c.loop_step, 1), inner, replies, n);
            assert(eval(arg(c.loop_step, 1), full, replies, n) == (r, q));
            assert(eval(c.loop_step, full, replies, n) == (to_bool(r), q));
            match to_bool(r) {
                EvalV::Done(Val::Bool(b)) => {
                    lemma_scopes(
                        s,
                        name,
                        c.iter_var@,
                        in_public(Val::Bool(accu)),
                        items[i as int],
                        in_public(Val::Bool(b)),
                    );
                    lemma_fold_loop(c, and, items, i + 1, b, inner, replies, q);
                },
                _ => {},
            }
        }
    }
}

/// `all` and `exists` give what the plain loop gives.
pub proof fn folding_is_the_plain_loop(
    c: ComprehensionExpr,
    and: bool,
    accu: bool,
    items: Seq<HeldV>,
    s: ScopeV,
    replies: Seq<ReplyV>,
    n: nat,
)
    requires
        !appends(c),
        folds(c, and),
        does_not_read(arg(c.loop_step, 1), c.accu_var@),
        c.iter_var@ != c.accu_var@,
    ensures
        eval_steps(c, Val::Bool(accu), items, s, replies, n) == by_the_loop(
            c,
            Val::Bool(accu),
            items,
            s,
            replies,
            n,
        ),
{
    lemma_fold_loop(c, and, items, 0, accu, s, replies, n);
    assert(folds(c, true) == and);
}

} // verus!
