//! What `map`, `filter`, `all` and `exists` give.

use crate::ast::{ComprehensionExpr, Expr, Expression, LiteralValue};
use crate::context::ScopeV;
use crate::laws::comprehension::by_the_loop;
use crate::laws::literals::kept;
use crate::laws::operators::{calls, every_operator_has_its_name};
use crate::model::{ErrV, Val};
use crate::runtime::interned::{held_items, in_public, HeldV};
use crate::semantics::{
    append_step, appends, arg, eval, eval_append, eval_comprehension, eval_comprehension_leaf,
    eval_fold, eval_leaf, eval_loop, eval_steps, eval_steps_leaf, folds, is_guarded, AppendV, EvalV,
    ReplyV,
};
use vstd::prelude::*;

verus! {

/// Whether an expression is the name `name`.
pub open spec fn is_name(e: Expression, name: Seq<char>) -> bool {
    e.expr matches Expr::Ident(x) && x@ == name
}

/// Whether an expression is `[f]`.
pub open spec fn is_list_of(e: Expression, f: Expression) -> bool {
    e.expr matches Expr::List(l) && l.elements@.len() == 1 && l.elements@[0] == f
        && l.optional_indices@.len() == 0
}

/// Whether an expression is `accu + [f]`.
pub open spec fn adds(e: Expression, accu: Seq<char>, f: Expression) -> bool {
    calls(e, "_+_"@, 2) && is_name(arg(e, 0), accu) && is_list_of(arg(e, 1), f)
}

/// Whether a comprehension is what `range.map(x, f)` expands to.
pub open spec fn is_map_macro(c: ComprehensionExpr, f: Expression) -> bool {
    &&& c.loop_cond.expr matches Expr::Literal(LiteralValue::Boolean(b)) && b
    &&& adds(c.loop_step, c.accu_var@, f)
    &&& is_name(c.result, c.accu_var@)
}

/// Whether a comprehension is what `range.map(x, p, f)` expands to, or `range.filter(x, p)`
/// where `f` is `x`.
pub open spec fn is_filter_macro(c: ComprehensionExpr, p: Expression, f: Expression) -> bool {
    &&& c.loop_cond.expr matches Expr::Literal(LiteralValue::Boolean(b)) && b
    &&& calls(c.loop_step, "_?_:_"@, 3)
    &&& arg(c.loop_step, 0) == p
    &&& adds(arg(c.loop_step, 1), c.accu_var@, f)
    &&& is_name(arg(c.loop_step, 2), c.accu_var@)
    &&& is_name(c.result, c.accu_var@)
}

/// Whether a comprehension is what `range.all(x, p)` expands to.
pub open spec fn is_all_macro(c: ComprehensionExpr, p: Expression) -> bool {
    &&& calls(c.loop_cond, "@not_strictly_false"@, 1)
    &&& is_name(arg(c.loop_cond, 0), c.accu_var@)
    &&& calls(c.loop_step, "_&&_"@, 2)
    &&& is_name(arg(c.loop_step, 0), c.accu_var@)
    &&& arg(c.loop_step, 1) == p
    &&& is_name(c.result, c.accu_var@)
}

/// Whether a comprehension is what `range.exists(x, p)` expands to.
pub open spec fn is_exists_macro(c: ComprehensionExpr, p: Expression) -> bool {
    &&& calls(c.loop_cond, "@not_strictly_false"@, 1)
    &&& calls(arg(c.loop_cond, 0), "!_"@, 1)
    &&& is_name(arg(arg(c.loop_cond, 0), 0), c.accu_var@)
    &&& calls(c.loop_step, "_||_"@, 2)
    &&& is_name(arg(c.loop_step, 0), c.accu_var@)
    &&& arg(c.loop_step, 1) == p
    &&& is_name(c.result, c.accu_var@)
}

/// Whether a comprehension starts with `init` and goes over `items`, and how many replies
/// are taken when it does.
pub open(crate) spec fn goes_over(
    c: ComprehensionExpr,
    init: Val,
    items: Seq<HeldV>,
    s: ScopeV,
    replies: Seq<ReplyV>,
    n: nat,
    m: nat,
) -> bool {
    let (i, p) = eval(c.accu_init, s, replies, n);
    let (r, q) = eval(c.iter_range, s, replies, p);
    &&& i == EvalV::Done(init)
    &&& r matches EvalV::Done(v) && held_items(v, eval_leaf(c.iter_range, s, replies, p)) == Ok::<
        Seq<HeldV>,
        ErrV,
    >(items)
    &&& q == m
}

/// A comprehension over a list in public form goes over its elements, and one over a map
/// over its keys, all of them and in order. It goes over nothing else.
pub proof fn a_comprehension_goes_over_the_elements(v: Val)
    ensures
        match v {
            Val::List(items) => held_items(v, None) matches Ok(held) && held.len() == items.len()
                && forall|i: int|
                0 <= i < items.len() ==> (#[trigger] held[i]) == in_public(items[i]),
            Val::CelMap(m) => held_items(v, None) matches Ok(held) && held.len() == m.len()
                && forall|i: int| 0 <= i < m.len() ==> (#[trigger] held[i]) == in_public(m[i].0),
            _ => held_items(v, None) == Err::<Seq<HeldV>, ErrV>(ErrV::NoSuchOverload),
        },
{
}

/// What an expression comes to for item `i`, by its name.
pub open spec fn at_item(
    f: Expression,
    x: Seq<char>,
    items: Seq<HeldV>,
    i: int,
    s: ScopeV,
    replies: Seq<ReplyV>,
    n: nat,
) -> (EvalV, nat) {
    eval(f, s.bind(x, items[i]), replies, n)
}

/// The scope after the first `i` items.
spec fn scope_at(s: ScopeV, x: Seq<char>, items: Seq<HeldV>, i: int) -> ScopeV {
    if i <= 0 {
        s
    } else {
        s.bind(x, items[i - 1])
    }
}

proof fn lemma_scope_at(s: ScopeV, x: Seq<char>, items: Seq<HeldV>, i: int)
    requires
        0 <= i < items.len(),
    ensures
        scope_at(s, x, items, i).bind(x, items[i]) == s.bind(x, items[i]),
        scope_at(s, x, items, i + 1) == s.bind(x, items[i]),
{
    assert(scope_at(s, x, items, i).bind(x, items[i]).locals =~= s.bind(x, items[i]).locals);
}

/// Whether a predicate comes to `bs` for the items, in turn, and an expression to `vs` for
/// those of which it is true. `marks` are the numbers of replies taken before each item
/// and after the last, and `mids` those after the predicate.
pub open spec fn filtered(
    p: Expression,
    f: Expression,
    x: Seq<char>,
    items: Seq<HeldV>,
    bs: Seq<bool>,
    vs: Seq<Val>,
    marks: Seq<nat>,
    mids: Seq<nat>,
    s: ScopeV,
    replies: Seq<ReplyV>,
) -> bool {
    &&& bs.len() == items.len()
    &&& vs.len() == items.len()
    &&& mids.len() == items.len()
    &&& marks.len() == items.len() + 1
    &&& forall|i: int|
        0 <= i < items.len() ==> {
            &&& at_item(p, x, items, i, s, replies, marks[i]) == (
                EvalV::Done(Val::Bool(#[trigger] bs[i])),
                mids[i],
            )
            &&& bs[i] ==> at_item(f, x, items, i, s, replies, mids[i]) == (
                EvalV::Done(vs[i]),
                marks[i + 1],
            )
            &&& !bs[i] ==> marks[i + 1] == mids[i]
        }
}

/// What is chosen of `vs`.
pub open spec fn chosen(bs: Seq<bool>, vs: Seq<Val>) -> Seq<Option<Val>> {
    Seq::new(
        bs.len(),
        |i: int|
            if bs[i] {
                Some(vs[i])
            } else {
                None
            },
    )
}

proof fn lemma_append_filtered(
    c: ComprehensionExpr,
    p: Expression,
    f: Expression,
    items: Seq<HeldV>,
    bs: Seq<bool>,
    vs: Seq<Val>,
    marks: Seq<nat>,
    mids: Seq<nat>,
    i: nat,
    acc: Seq<Val>,
    s: ScopeV,
    replies: Seq<ReplyV>,
)
    requires
        is_filter_macro(c, p, f),
        filtered(p, f, c.iter_var@, items, bs, vs, marks, mids, s, replies),
        i <= items.len(),
    ensures
        eval_append(
            c,
            items,
            i,
            acc,
            scope_at(s, c.iter_var@, items, i as int),
            replies,
            marks[i as int],
        ) == (
            AppendV::Done(
                acc + kept(chosen(bs, vs).skip(i as int)),
                scope_at(s, c.iter_var@, items, items.len() as int),
            ),
            marks.last(),
        ),
    decreases items.len() - i,
{
    every_operator_has_its_name(""@);
    assert(appends(c) && is_guarded(c));
    assert(append_step(c) == arg(c.loop_step, 1));
    let rest = chosen(bs, vs).skip(i as int);
    if i == items.len() {
        assert(rest =~= Seq::<Option<Val>>::empty());
        assert(acc + kept(rest) =~= acc);
    } else {
        lemma_scope_at(s, c.iter_var@, items, i as int);
        assert(rest.drop_first() =~= chosen(bs, vs).skip((i + 1) as int));
        let b = bs[i as int];
        let next = if b {
            acc.push(vs[i as int])
        } else {
            acc
        };
        lemma_append_filtered(c, p, f, items, bs, vs, marks, mids, i + 1, next, s, replies);
        assert(acc + kept(rest) =~= next + kept(rest.drop_first()));
    }
}

/// `filter` gives the items of which the predicate is true, all of them and in order, and
/// `map` with a predicate gives what the expression comes to for each of them.
pub proof fn filtering_keeps_what_the_predicate_is_true_of(
    e: Expression,
    c: ComprehensionExpr,
    p: Expression,
    f: Expression,
    items: Seq<HeldV>,
    bs: Seq<bool>,
    vs: Seq<Val>,
    marks: Seq<nat>,
    mids: Seq<nat>,
    init: Seq<Val>,
    s: ScopeV,
    replies: Seq<ReplyV>,
    n: nat,
)
    requires
        e.expr matches Expr::Comprehension(b) && *b == c,
        is_filter_macro(c, p, f),
        goes_over(c, Val::List(init), items, s, replies, n, marks[0]),
        filtered(p, f, c.iter_var@, items, bs, vs, marks, mids, s, replies),
    ensures
        eval(e, s, replies, n) == (
            EvalV::Done(Val::List(kept(chosen(bs, vs)))),
            marks.last(),
        ),
{
    every_operator_has_its_name(""@);
    lemma_append_filtered(
        c,
        p,
        f,
        items,
        bs,
        vs,
        marks,
        mids,
        0,
        Seq::empty(),
        s,
        replies,
    );
    assert(chosen(bs, vs).skip(0) =~= chosen(bs, vs));
    assert(Seq::<Val>::empty() + kept(chosen(bs, vs)) =~= kept(chosen(bs, vs)));
    assert(appends(c));
    assert(eval(e, s, replies, n) == eval_comprehension(c, s, replies, n));
    assert(eval_comprehension(c, s, replies, n) == eval_steps(
        c,
        Val::List(init),
        items,
        s,
        replies,
        marks[0],
    ));
}

/// Whether an expression comes to `vs` for the items, in turn.
pub open spec fn mapped(
    f: Expression,
    x: Seq<char>,
    items: Seq<HeldV>,
    vs: Seq<Val>,
    marks: Seq<nat>,
    s: ScopeV,
    replies: Seq<ReplyV>,
) -> bool {
    &&& vs.len() == items.len()
    &&& marks.len() == items.len() + 1
    &&& forall|i: int|
        0 <= i < items.len() ==> at_item(f, x, items, i, s, replies, marks[i]) == (
            EvalV::Done(#[trigger] vs[i]),
            marks[i + 1],
        )
}

proof fn lemma_append_mapped(
    c: ComprehensionExpr,
    f: Expression,
    items: Seq<HeldV>,
    vs: Seq<Val>,
    marks: Seq<nat>,
    i: nat,
    s: ScopeV,
    replies: Seq<ReplyV>,
)
    requires
        is_map_macro(c, f),
        mapped(f, c.iter_var@, items, vs, marks, s, replies),
        i <= items.len(),
    ensures
        eval_append(
            c,
            items,
            i,
            vs.take(i as int),
            scope_at(s, c.iter_var@, items, i as int),
            replies,
            marks[i as int],
        ) == (
            AppendV::Done(vs, scope_at(s, c.iter_var@, items, items.len() as int)),
            marks.last(),
        ),
    decreases items.len() - i,
{
    every_operator_has_its_name(""@);
    assert(appends(c) && !is_guarded(c));
    if i == items.len() {
        assert(vs.take(i as int) =~= vs);
    } else {
        lemma_scope_at(s, c.iter_var@, items, i as int);
        assert(at_item(f, c.iter_var@, items, i as int, s, replies, marks[i as int]) == (
            EvalV::Done(vs[i as int]),
            marks[(i + 1) as int],
        ));
        assert(vs.take(i as int).push(vs[i as int]) =~= vs.take((i + 1) as int));
        lemma_append_mapped(c, f, items, vs, marks, i + 1, s, replies);
    }
}

/// `map` gives what its expression comes to for each item, as many as there are items and
/// in their order.
pub proof fn mapping_takes_every_item(
    e: Expression,
    c: ComprehensionExpr,
    f: Expression,
    items: Seq<HeldV>,
    vs: Seq<Val>,
    marks: Seq<nat>,
    init: Seq<Val>,
    s: ScopeV,
    replies: Seq<ReplyV>,
    n: nat,
)
    requires
        e.expr matches Expr::Comprehension(b) && *b == c,
        is_map_macro(c, f),
        goes_over(c, Val::List(init), items, s, replies, n, marks[0]),
        mapped(f, c.iter_var@, items, vs, marks, s, replies),
    ensures
        eval(e, s, replies, n) == (EvalV::Done(Val::List(vs)), marks.last()),
{
    every_operator_has_its_name(""@);
    assert(vs.take(0) =~= Seq::<Val>::empty());
    lemma_append_mapped(c, f, items, vs, marks, 0, s, replies);
    assert(appends(c));
    assert(eval(e, s, replies, n) == eval_comprehension(c, s, replies, n));
    assert(eval_comprehension(c, s, replies, n) == eval_steps(
        c,
        Val::List(init),
        items,
        s,
        replies,
        marks[0],
    ));
}

/// `map` ends with the first item for which its expression has no value, and ends as that
/// does.
pub proof fn mapping_ends_with_its_first_failure(
    e: Expression,
    c: ComprehensionExpr,
    f: Expression,
    items: Seq<HeldV>,
    vs: Seq<Val>,
    marks: Seq<nat>,
    k: nat,
    init: Seq<Val>,
    s: ScopeV,
    replies: Seq<ReplyV>,
    n: nat,
)
    requires
        e.expr matches Expr::Comprehension(b) && *b == c,
        is_map_macro(c, f),
        goes_over(c, Val::List(init), items, s, replies, n, marks[0]),
        k < items.len(),
        mapped(f, c.iter_var@, items.take(k as int), vs, marks, s, replies),
        !(at_item(f, c.iter_var@, items, k as int, s, replies, marks[k as int]).0 is Done),
    ensures
        eval(e, s, replies, n) == at_item(
            f,
            c.iter_var@,
            items,
            k as int,
            s,
            replies,
            marks[k as int],
        ),
{
    every_operator_has_its_name(""@);
    assert(vs.take(0) =~= Seq::<Val>::empty());
    lemma_append_stops(c, f, items, vs, marks, 0, k, s, replies);
    assert(appends(c));
    assert(eval(e, s, replies, n) == eval_comprehension(c, s, replies, n));
    assert(eval_comprehension(c, s, replies, n) == eval_steps(
        c,
        Val::List(init),
        items,
        s,
        replies,
        marks[0],
    ));
}

proof fn lemma_append_stops(
    c: ComprehensionExpr,
    f: Expression,
    items: Seq<HeldV>,
    vs: Seq<Val>,
    marks: Seq<nat>,
    i: nat,
    k: nat,
    s: ScopeV,
    replies: Seq<ReplyV>,
)
    requires
        is_map_macro(c, f),
        i <= k < items.len(),
        mapped(f, c.iter_var@, items.take(k as int), vs, marks, s, replies),
        !(at_item(f, c.iter_var@, items, k as int, s, replies, marks[k as int]).0 is Done),
    ensures
        ({
            let (r, p) = at_item(f, c.iter_var@, items, k as int, s, replies, marks[k as int]);
            eval_append(
                c,
                items,
                i,
                vs.take(i as int),
                scope_at(s, c.iter_var@, items, i as int),
                replies,
                marks[i as int],
            ) == match r {
                EvalV::Fail(x) => (AppendV::Fail(x), p),
                EvalV::Ask(q) => (AppendV::Ask(q), p),
                EvalV::Done(_) => (AppendV::Done(Seq::empty(), s), p),
            }
        }),
    decreases k - i,
{
    every_operator_has_its_name(""@);
    assert(appends(c) && !is_guarded(c));
    lemma_scope_at(s, c.iter_var@, items, i as int);
    if i < k {
        let part = items.take(k as int);
        assert(part[i as int] == items[i as int]);
        assert(at_item(f, c.iter_var@, part, i as int, s, replies, marks[i as int]) == (
            EvalV::Done(vs[i as int]),
            marks[(i + 1) as int],
        ));
        assert(vs.take(i as int).push(vs[i as int]) =~= vs.take((i + 1) as int));
        lemma_append_stops(c, f, items, vs, marks, i + 1, k, s, replies);
    }
}

/// Whether a predicate is `b` of each of the first `k` items, in turn.
pub open spec fn holds_throughout(
    p: Expression,
    x: Seq<char>,
    items: Seq<HeldV>,
    k: nat,
    b: bool,
    marks: Seq<nat>,
    s: ScopeV,
    replies: Seq<ReplyV>,
) -> bool {
    &&& k <= items.len()
    &&& marks.len() == k + 1
    &&& forall|i: int|
        0 <= i < k ==> at_item(p, x, items, i, s, replies, #[trigger] marks[i]) == (
            EvalV::Done(Val::Bool(b)),
            marks[i + 1],
        )
}

proof fn lemma_fold_throughout(
    c: ComprehensionExpr,
    and: bool,
    p: Expression,
    items: Seq<HeldV>,
    k: nat,
    i: nat,
    marks: Seq<nat>,
    s: ScopeV,
    replies: Seq<ReplyV>,
)
    requires
        folds(c, and),
        arg(c.loop_step, 1) == p,
        holds_throughout(p, c.iter_var@, items, k, and, marks, s, replies),
        i <= k,
    ensures
        eval_fold(
            c,
            and,
            items,
            i,
            and,
            scope_at(s, c.iter_var@, items, i as int),
            replies,
            marks[i as int],
        ) == eval_fold(
            c,
            and,
            items,
            k,
            and,
            scope_at(s, c.iter_var@, items, k as int),
            replies,
            marks[k as int],
        ),
    decreases k - i,
{
    if i < k {
        lemma_scope_at(s, c.iter_var@, items, i as int);
        assert(at_item(p, c.iter_var@, items, i as int, s, replies, marks[i as int]) == (
            EvalV::Done(Val::Bool(and)),
            marks[(i + 1) as int],
        ));
        lemma_fold_throughout(c, and, p, items, k, i + 1, marks, s, replies);
    }
}

proof fn lemma_fold_macro(c: ComprehensionExpr, and: bool, p: Expression)
    requires
        if and {
            is_all_macro(c, p)
        } else {
            is_exists_macro(c, p)
        },
    ensures
        folds(c, and),
        !folds(c, !and),
        !appends(c),
        arg(c.loop_step, 1) == p,
{
    every_operator_has_its_name(""@);
}

/// `all` is true where its predicate is true of every item, and `exists` is false where
/// its predicate is false of every item.
pub proof fn a_predicate_that_decides_nothing_leaves_the_start(
    e: Expression,
    c: ComprehensionExpr,
    all: bool,
    p: Expression,
    items: Seq<HeldV>,
    marks: Seq<nat>,
    s: ScopeV,
    replies: Seq<ReplyV>,
    n: nat,
)
    requires
        e.expr matches Expr::Comprehension(b) && *b == c,
        if all {
            is_all_macro(c, p)
        } else {
            is_exists_macro(c, p)
        },
        goes_over(c, Val::Bool(all), items, s, replies, n, marks[0]),
        holds_throughout(p, c.iter_var@, items, items.len(), all, marks, s, replies),
    ensures
        eval(e, s, replies, n) == (EvalV::Done(Val::Bool(all)), marks.last()),
{
    lemma_fold_macro(c, all, p);
    lemma_fold_throughout(c, all, p, items, items.len(), 0, marks, s, replies);
    assert(eval(e, s, replies, n) == eval_comprehension(c, s, replies, n));
    assert(eval_comprehension(c, s, replies, n) == eval_steps(
        c,
        Val::Bool(all),
        items,
        s,
        replies,
        marks[0],
    ));
    assert(folds(c, true) == all);
}

/// `all` is false at the first item of which its predicate is false, and `exists` is true
/// at the first of which its predicate is true; no item after it is looked at. A predicate
/// that has no value, or that is no boolean, ends either.
pub proof fn a_predicate_decides_at_the_first_item(
    e: Expression,
    c: ComprehensionExpr,
    all: bool,
    p: Expression,
    items: Seq<HeldV>,
    k: nat,
    marks: Seq<nat>,
    s: ScopeV,
    replies: Seq<ReplyV>,
    n: nat,
)
    requires
        e.expr matches Expr::Comprehension(b) && *b == c,
        if all {
            is_all_macro(c, p)
        } else {
            is_exists_macro(c, p)
        },
        goes_over(c, Val::Bool(all), items, s, replies, n, marks[0]),
        k < items.len(),
        holds_throughout(p, c.iter_var@, items, k, all, marks, s, replies),
        at_item(p, c.iter_var@, items, k as int, s, replies, marks[k as int]).0 != EvalV::Done(
            Val::Bool(all),
        ),
    ensures
        ({
            let (r, q) = at_item(p, c.iter_var@, items, k as int, s, replies, marks[k as int]);
            eval(e, s, replies, n) == match r {
                EvalV::Done(Val::Bool(_)) => (EvalV::Done(Val::Bool(!all)), q),
                EvalV::Done(_) => (EvalV::Fail(ErrV::NoSuchOverload), q),
                _ => (r, q),
            }
        }),
{
    lemma_fold_macro(c, all, p);
    lemma_fold_throughout(c, all, p, items, k, 0, marks, s, replies);
    lemma_scope_at(s, c.iter_var@, items, k as int);
    assert(eval(e, s, replies, n) == eval_comprehension(c, s, replies, n));
    assert(eval_comprehension(c, s, replies, n) == eval_steps(
        c,
        Val::Bool(all),
        items,
        s,
        replies,
        marks[0],
    ));
    assert(folds(c, true) == all);
    let (r, q) = at_item(p, c.iter_var@, items, k as int, s, replies, marks[k as int]);
    match r {
        EvalV::Done(Val::Bool(b)) => {
            let inner = scope_at(s, c.iter_var@, items, k as int).bind(
                c.iter_var@,
                items[k as int],
            );
            assert(eval_fold(c, all, items, k + 1, b, inner, replies, q) == (
                EvalV::Done(Val::Bool(b)),
                q,
            ));
        },
        _ => {},
    }
}

/// Whether the steps of a plain loop over the first `k` items go through `accs`, the
/// values of the accumulator before each item and after the last: before each item the
/// condition is true, and the step comes to the next value.
pub open spec fn looped(
    c: ComprehensionExpr,
    items: Seq<HeldV>,
    k: nat,
    accs: Seq<Val>,
    marks: Seq<nat>,
    mids: Seq<nat>,
    s: ScopeV,
    replies: Seq<ReplyV>,
) -> bool {
    &&& k <= items.len()
    &&& accs.len() == k + 1
    &&& marks.len() == k + 1
    &&& mids.len() == k
    &&& forall|i: int|
        0 <= i < k ==> {
            let before = loop_scope(c, items, i, #[trigger] accs[i], s);
            &&& eval(c.loop_cond, before, replies, marks[i]) == (
                EvalV::Done(Val::Bool(true)),
                mids[i],
            )
            &&& eval(c.loop_step, before.bind(c.iter_var@, items[i]), replies, mids[i]) == (
                EvalV::Done(accs[i + 1]),
                marks[i + 1],
            )
        }
}

/// The scope of a plain loop before item `i`: the accumulator has its value, and the name
/// of the items is the item before.
pub open spec fn loop_scope(
    c: ComprehensionExpr,
    items: Seq<HeldV>,
    i: int,
    acc: Val,
    s: ScopeV,
) -> ScopeV {
    if i <= 0 {
        s.bind(c.accu_var@, in_public(acc))
    } else {
        s.bind(c.iter_var@, items[i - 1]).bind(c.accu_var@, in_public(acc))
    }
}

proof fn lemma_loop(
    c: ComprehensionExpr,
    items: Seq<HeldV>,
    k: nat,
    i: nat,
    accs: Seq<Val>,
    marks: Seq<nat>,
    mids: Seq<nat>,
    s: ScopeV,
    replies: Seq<ReplyV>,
)
    requires
        c.iter_var@ != c.accu_var@,
        looped(c, items, k, accs, marks, mids, s, replies),
        i <= k,
    ensures
        eval_loop(
            c,
            items,
            i,
            loop_scope(c, items, i as int, accs[i as int], s),
            replies,
            marks[i as int],
        ) == eval_loop(
            c,
            items,
            k,
            loop_scope(c, items, k as int, accs[k as int], s),
            replies,
            marks[k as int],
        ),
    decreases k - i,
{
    if i < k {
        let before = loop_scope(c, items, i as int, accs[i as int], s);
        let inner = before.bind(c.iter_var@, items[i as int]);
        let after = inner.bind(c.accu_var@, in_public(accs[(i + 1) as int]));
        assert(after.locals =~= loop_scope(c, items, (i + 1) as int, accs[(i + 1) as int], s).locals);
        lemma_loop(c, items, k, i + 1, accs, marks, mids, s, replies);
    }
}

/// A plain loop takes the items in order while its condition is true, each step giving the
/// next value of the accumulator. Its result is evaluated with the value after the last
/// item that was taken: after all of them, or where the condition is first false.
pub proof fn a_loop_takes_the_items_in_order(
    c: ComprehensionExpr,
    items: Seq<HeldV>,
    k: nat,
    accs: Seq<Val>,
    marks: Seq<nat>,
    mids: Seq<nat>,
    s: ScopeV,
    replies: Seq<ReplyV>,
)
    requires
        c.iter_var@ != c.accu_var@,
        looped(c, items, k, accs, marks, mids, s, replies),
    ensures
        ({
            let end = loop_scope(c, items, k as int, accs.last(), s);
            let (go, p) = eval(c.loop_cond, end, replies, marks.last());
            let r = by_the_loop(c, accs[0], items, s, replies, marks[0]);
            &&& k == items.len() ==> r == eval(c.result, end, replies, marks.last())
            &&& k < items.len() && go == EvalV::Done(Val::Bool(false)) ==> r == eval(
                c.result,
                end,
                replies,
                p,
            )
            &&& k < items.len() && !(go is Done) ==> r == (go, p)
            &&& k < items.len() && go is Done && !(go->Done_0 is Bool) ==> r == (
                EvalV::Fail(ErrV::NoSuchOverload),
                p,
            )
        }),
{
    lemma_loop(c, items, k, 0, accs, marks, mids, s, replies);
}

/// A comprehension of no other shape is a plain loop.
pub proof fn any_other_comprehension_is_a_loop(
    e: Expression,
    c: ComprehensionExpr,
    init: Val,
    items: Seq<HeldV>,
    s: ScopeV,
    replies: Seq<ReplyV>,
    n: nat,
    m: nat,
)
    requires
        e.expr matches Expr::Comprehension(b) && *b == c,
        goes_over(c, init, items, s, replies, n, m),
        !(c.loop_cond.expr is Literal),
        !calls(c.loop_step, "_&&_"@, 2),
        !calls(c.loop_step, "_||_"@, 2),
    ensures
        eval(e, s, replies, n) == by_the_loop(c, init, items, s, replies, m),
{
    every_operator_has_its_name(""@);
    match c.loop_step.expr {
        Expr::Call(call) => every_operator_has_its_name(call.func_name@),
        _ => {},
    }
    assert(!appends(c));
    assert(!folds(c, true) && !folds(c, false));
    assert(eval(e, s, replies, n) == eval_comprehension(c, s, replies, n));
    assert(eval_comprehension(c, s, replies, n) == eval_steps(c, init, items, s, replies, m));
}

/// A comprehension ends as its start ends that has no value, else as its range does; a
/// range that holds nothing to go over has no such overload.
pub proof fn the_range_comes_before_the_steps(
    e: Expression,
    c: ComprehensionExpr,
    s: ScopeV,
    replies: Seq<ReplyV>,
    n: nat,
)
    requires
        e.expr matches Expr::Comprehension(b) && *b == c,
    ensures
        ({
            let (i, p) = eval(c.accu_init, s, replies, n);
            let (r, q) = eval(c.iter_range, s, replies, p);
            &&& !(i is Done) ==> eval(e, s, replies, n) == (i, p)
            &&& i is Done && !(r is Done) ==> eval(e, s, replies, n) == (r, q)
            &&& i is Done && r is Done && !(r->Done_0 is List) && !(r->Done_0 is CelMap)
                && eval_leaf(c.iter_range, s, replies, p) is None ==> eval(e, s, replies, n) == (
                EvalV::Fail(ErrV::NoSuchOverload),
                q,
            )
        }),
{
    assert(eval(e, s, replies, n) == eval_comprehension(c, s, replies, n));
}

/// `all` and `exists` need a boolean to start from.
pub proof fn a_predicate_needs_a_boolean_to_start_from(
    e: Expression,
    c: ComprehensionExpr,
    all: bool,
    p: Expression,
    init: Val,
    items: Seq<HeldV>,
    s: ScopeV,
    replies: Seq<ReplyV>,
    n: nat,
    m: nat,
)
    requires
        e.expr matches Expr::Comprehension(b) && *b == c,
        if all {
            is_all_macro(c, p)
        } else {
            is_exists_macro(c, p)
        },
        goes_over(c, init, items, s, replies, n, m),
        !(init is Bool),
    ensures
        eval(e, s, replies, n) == (EvalV::Fail(ErrV::NoSuchOverload), m),
{
    lemma_fold_macro(c, all, p);
    assert(eval(e, s, replies, n) == eval_comprehension(c, s, replies, n));
    assert(eval_comprehension(c, s, replies, n) == eval_steps(c, init, items, s, replies, m));
    assert(folds(c, true) || folds(c, false));
}

/// What `all` and `exists` give is in public form, and so is the list that `map` and
/// `filter` give.
pub proof fn what_a_macro_gives_is_in_public_form(
    e: Expression,
    c: ComprehensionExpr,
    p: Expression,
    f: Expression,
    init: Val,
    items: Seq<HeldV>,
    s: ScopeV,
    replies: Seq<ReplyV>,
    n: nat,
    m: nat,
)
    requires
        e.expr matches Expr::Comprehension(b) && *b == c,
        goes_over(c, init, items, s, replies, n, m),
    ensures
        is_all_macro(c, p) || is_exists_macro(c, p) ==> eval_leaf(e, s, replies, n) is None,
        (is_map_macro(c, f) || is_filter_macro(c, p, f)) && init is List ==> eval_leaf(
            e,
            s,
            replies,
            n,
        ) is None,
{
    assert(eval_leaf(e, s, replies, n) == eval_comprehension_leaf(c, s, replies, n));
    if is_all_macro(c, p) {
        lemma_fold_macro(c, true, p);
    }
    if is_exists_macro(c, p) {
        lemma_fold_macro(c, false, p);
    }
    if is_map_macro(c, f) || is_filter_macro(c, p, f) {
        every_operator_has_its_name(""@);
        assert(appends(c));
    }
    assert(eval_comprehension_leaf(c, s, replies, n) == eval_steps_leaf(
        c,
        init,
        items,
        s,
        replies,
        m,
    ));
}

} // verus!
