//! Literals and names.

use crate::ast::{EntryExpr, Expr, Expression, ListExpr, LiteralValue, MapExpr};
use crate::context::ScopeV;
use crate::laws::calls::in_turn;
use crate::model::{insert_all, is_key, ErrV, Val};
use crate::runtime::interned::HeldV;
use crate::semantics::{
    eval, eval_elements, eval_entries, eval_leaf, ArgsV, EntriesV, EvalV, ReplyV, RequestV,
};
use vstd::prelude::*;

verus! {

/// A literal is the value that it writes, in public form, and takes no reply.
pub proof fn a_literal_is_its_value(e: Expression, s: ScopeV, replies: Seq<ReplyV>, n: nat)
    requires
        e.expr is Literal,
    ensures
        eval(e, s, replies, n) == (
            EvalV::Done(
                match e.expr->Literal_0 {
                    LiteralValue::Boolean(b) => Val::Bool(b),
                    LiteralValue::Int(i) => Val::Int(i),
                    LiteralValue::UInt(u) => Val::UInt(u),
                    LiteralValue::Double(d) => Val::Double(d),
                    LiteralValue::String(t) => Val::Str(t@),
                    LiteralValue::Bytes(b) => Val::Bytes(b@),
                    LiteralValue::Null => Val::Null,
                },
            ),
            n,
        ),
        eval_leaf(e, s, replies, n) is None,
{
}

/// A name is what the innermost comprehension binds it to, else what the program binds
/// it to; else it is not declared.
pub proof fn a_name_is_what_it_is_bound_to(
    e: Expression,
    s: ScopeV,
    replies: Seq<ReplyV>,
    n: nat,
)
    requires
        e.expr is Ident,
    ensures
        ({
            let name = e.expr->Ident_0@;
            eval(e, s, replies, n) == (
                if s.locals.dom().contains(name) {
                    EvalV::Done(s.locals[name].val)
                } else if s.globals.dom().contains(name) {
                    EvalV::Done(s.globals[name])
                } else {
                    EvalV::Fail(ErrV::UndeclaredReference(name))
                },
                n,
            )
        }),
{
}

/// A name that was just bound is what it was bound to, held as it was, and every other
/// name is what it was.
pub proof fn binding_a_name_changes_that_name_alone(
    e: Expression,
    name: Seq<char>,
    v: HeldV,
    s: ScopeV,
    replies: Seq<ReplyV>,
    n: nat,
)
    requires
        e.expr is Ident,
    ensures
        ({
            let t = s.bind(name, v);
            if e.expr->Ident_0@ == name {
                eval(e, t, replies, n) == (EvalV::Done(v.val), n) && eval_leaf(e, t, replies, n)
                    == v.leaf
            } else {
                eval(e, t, replies, n) == eval(e, s, replies, n) && eval_leaf(e, t, replies, n)
                    == eval_leaf(e, s, replies, n)
            }
        }),
{
}

/// What is there of `outs`, in order.
pub open spec fn kept<T>(outs: Seq<Option<T>>) -> Seq<T>
    decreases outs.len(),
{
    if outs.len() == 0 {
        Seq::empty()
    } else {
        match outs[0] {
            Some(x) => seq![x] + kept(outs.drop_first()),
            None => kept(outs.drop_first()),
        }
    }
}

proof fn lemma_kept_push<T>(outs: Seq<Option<T>>, x: Option<T>)
    ensures
        kept(outs.push(x)) == match x {
            Some(y) => kept(outs).push(y),
            None => kept(outs),
        },
    decreases outs.len(),
{
    let all = outs.push(x);
    if outs.len() == 0 {
        assert(all.drop_first() =~= Seq::<Option<T>>::empty());
        assert(kept(all.drop_first()) =~= Seq::<T>::empty());
        match x {
            Some(y) => assert(kept(all) =~= kept(outs).push(y)),
            None => assert(kept(all) =~= kept(outs)),
        }
    } else {
        assert(all.drop_first() =~= outs.drop_first().push(x));
        lemma_kept_push(outs.drop_first(), x);
        match x {
            Some(y) => assert(kept(all) =~= kept(outs).push(y)),
            None => assert(kept(all) =~= kept(outs)),
        }
    }
}

/// All that is kept of what is all there is everything.
pub proof fn everything_is_kept<T>(outs: Seq<Option<T>>, vs: Seq<T>)
    requires
        outs.len() == vs.len(),
        forall|i: int| 0 <= i < outs.len() ==> #[trigger] outs[i] == Some(vs[i]),
    ensures
        kept(outs) == vs,
    decreases outs.len(),
{
    if outs.len() > 0 {
        assert forall|i: int| 0 <= i < outs.drop_first().len() implies #[trigger] outs.drop_first()[i]
            == Some(vs.drop_first()[i]) by {
            assert(outs[i + 1] == Some(vs[i + 1]));
        }
        everything_is_kept(outs.drop_first(), vs.drop_first());
        assert(kept(outs) =~= vs);
    } else {
        assert(kept(outs) =~= vs);
    }
}

/// What a value stands for where it is written as optional: what the optional holds, or
/// nothing. A value that is no optional stands for itself.
pub open spec fn stands_for(optional: bool, v: Val) -> Option<Val> {
    match v {
        Val::Optional(None) if optional => None,
        Val::Optional(Some(x)) if optional => Some(*x),
        _ => Some(v),
    }
}

proof fn lemma_elements(
    l: ListExpr,
    vs: Seq<Val>,
    marks: Seq<nat>,
    k: nat,
    s: ScopeV,
    replies: Seq<ReplyV>,
)
    requires
        k <= l.elements@.len(),
        in_turn(l.elements@, vs, marks, s, replies),
    ensures
        eval_elements(l, k, s, replies, marks[0]) == (
            ArgsV::Done(
                kept(
                    Seq::new(
                        k,
                        |i: int| stands_for(l.optional_indices@.contains(i as usize), vs[i]),
                    ),
                ),
            ),
            marks[k as int],
        ),
    decreases k,
{
    let f = |i: int| stands_for(l.optional_indices@.contains(i as usize), vs[i]);
    if k == 0 {
        assert(Seq::new(0, f) =~= Seq::<Option<Val>>::empty());
        assert(kept(Seq::new(0, f)) =~= Seq::<Val>::empty());
    } else {
        lemma_elements(l, vs, marks, (k - 1) as nat, s, replies);
        let before = Seq::new((k - 1) as nat, f);
        lemma_kept_push(before, f(k - 1));
        assert(before.push(f(k - 1)) =~= Seq::new(k, f));
        assert(eval(l.elements@[k - 1], s, replies, marks[k - 1]) == (
            EvalV::Done(vs[k - 1]),
            marks[k as int],
        ));
    }
}

/// A list literal is the list of the values of its elements, all of them and in order;
/// an element that is written as optional stands for what it holds, or for nothing.
pub proof fn a_list_holds_its_elements(
    e: Expression,
    l: ListExpr,
    vs: Seq<Val>,
    marks: Seq<nat>,
    s: ScopeV,
    replies: Seq<ReplyV>,
)
    requires
        e.expr == Expr::List(l),
        in_turn(l.elements@, vs, marks, s, replies),
    ensures
        eval(e, s, replies, marks[0]) == (
            EvalV::Done(
                Val::List(
                    kept(
                        Seq::new(
                            vs.len(),
                            |i: int| stands_for(l.optional_indices@.contains(i as usize), vs[i]),
                        ),
                    ),
                ),
            ),
            marks.last(),
        ),
        l.optional_indices@.len() == 0 ==> eval(e, s, replies, marks[0]).0 == EvalV::Done(
            Val::List(vs),
        ),
{
    lemma_elements(l, vs, marks, l.elements@.len(), s, replies);
    if l.optional_indices@.len() == 0 {
        everything_is_kept(
            Seq::new(
                vs.len(),
                |i: int| stands_for(l.optional_indices@.contains(i as usize), vs[i]),
            ),
            vs,
        );
    }
}

/// A list literal ends as the first of its elements ends that has no value.
pub proof fn a_list_ends_with_its_first_failure(
    e: Expression,
    l: ListExpr,
    vs: Seq<Val>,
    marks: Seq<nat>,
    k: nat,
    s: ScopeV,
    replies: Seq<ReplyV>,
)
    requires
        e.expr == Expr::List(l),
        k < l.elements@.len(),
        in_turn(l.elements@.take(k as int), vs, marks, s, replies),
        !(eval(l.elements@[k as int], s, replies, marks[k as int]).0 is Done),
    ensures
        eval(e, s, replies, marks[0]) == eval(l.elements@[k as int], s, replies, marks[k as int]),
{
    lemma_elements_part(l, vs, marks, k, k, s, replies);
    lemma_elements_stop(l, vs, marks, k, l.elements@.len(), s, replies);
}

proof fn lemma_elements_part(
    l: ListExpr,
    vs: Seq<Val>,
    marks: Seq<nat>,
    k: nat,
    j: nat,
    s: ScopeV,
    replies: Seq<ReplyV>,
)
    requires
        j <= k <= l.elements@.len(),
        in_turn(l.elements@.take(k as int), vs, marks, s, replies),
    ensures
        ({
            let (r, p) = eval_elements(l, j, s, replies, marks[0]);
            r is Done && p == marks[j as int]
        }),
    decreases j,
{
    if j > 0 {
        lemma_elements_part(l, vs, marks, k, (j - 1) as nat, s, replies);
        assert(l.elements@.take(k as int)[j - 1] == l.elements@[j - 1]);
    }
}

proof fn lemma_elements_stop(
    l: ListExpr,
    vs: Seq<Val>,
    marks: Seq<nat>,
    k: nat,
    j: nat,
    s: ScopeV,
    replies: Seq<ReplyV>,
)
    requires
        k < j <= l.elements@.len(),
        in_turn(l.elements@.take(k as int), vs, marks, s, replies),
        !(eval(l.elements@[k as int], s, replies, marks[k as int]).0 is Done),
    ensures
        ({
            let (r, p) = eval(l.elements@[k as int], s, replies, marks[k as int]);
            eval_elements(l, j, s, replies, marks[0]) == (
                match r {
                    EvalV::Fail(f) => ArgsV::Fail(f),
                    EvalV::Ask(q) => ArgsV::Ask(q),
                    EvalV::Done(_) => ArgsV::Done(Seq::empty()),
                },
                p,
            )
        }),
    decreases j,
{
    lemma_elements_part(l, vs, marks, k, k, s, replies);
    if j > k + 1 {
        lemma_elements_stop(l, vs, marks, k, (j - 1) as nat, s, replies);
    }
}

/// The keys and the values of a map literal, each key before its value, where it holds
/// nothing else.
pub open spec fn keys_and_values(entries: Seq<EntryExpr>) -> Seq<Expression> {
    Seq::new(
        2 * entries.len(),
        |i: int|
            match entries[i / 2] {
                EntryExpr::MapEntry { key, value, .. } => if i % 2 == 0 {
                    key
                } else {
                    value
                },
                EntryExpr::StructField { value, .. } => value,
            },
    )
}

/// Whether an entry of a map literal is written as optional.
pub open spec fn is_optional(e: EntryExpr) -> bool {
    match e {
        EntryExpr::MapEntry { optional, .. } => optional,
        EntryExpr::StructField { optional, .. } => optional,
    }
}

/// What entry `i` of a map literal stores, by the values of its key and its value.
pub open spec fn stored(entries: Seq<EntryExpr>, vs: Seq<Val>, i: int) -> Option<(Val, Val)> {
    match stands_for(is_optional(entries[i]), vs[2 * i + 1]) {
        Some(x) => Some((vs[2 * i], x)),
        None => None,
    }
}

proof fn lemma_entries(
    entries: Seq<EntryExpr>,
    vs: Seq<Val>,
    marks: Seq<nat>,
    k: nat,
    s: ScopeV,
    replies: Seq<ReplyV>,
)
    requires
        k <= entries.len(),
        forall|i: int| 0 <= i < entries.len() ==> (#[trigger] entries[i]) is MapEntry,
        in_turn(keys_and_values(entries), vs, marks, s, replies),
        forall|i: int| 0 <= i < entries.len() ==> is_key(#[trigger] vs[2 * i]),
    ensures
        eval_entries(entries, k, s, replies, marks[0]) == (
            EntriesV::Done(
                insert_all(kept(Seq::new(k, |i: int| stored(entries, vs, i)))),
            ),
            marks[2 * k as int],
        ),
    decreases k,
{
    let f = |i: int| stored(entries, vs, i);
    if k == 0 {
        assert(Seq::new(0, f) =~= Seq::<Option<(Val, Val)>>::empty());
        assert(kept(Seq::new(0, f)) =~= Seq::<(Val, Val)>::empty());
        assert(insert_all(kept(Seq::new(0, f))) =~= Seq::<(Val, Val)>::empty());
    } else {
        lemma_entries(entries, vs, marks, (k - 1) as nat, s, replies);
        let before = Seq::new((k - 1) as nat, f);
        lemma_kept_push(before, f(k - 1));
        assert(before.push(f(k - 1)) =~= Seq::new(k, f));
        let both = keys_and_values(entries);
        let i = k - 1;
        assert((2 * i) / 2 == i && (2 * i) % 2 == 0 && (2 * i + 1) / 2 == i && (2 * i + 1) % 2
            == 1);
        assert(entries[i] is MapEntry);
        assert(is_key(vs[2 * i]));
        assert(eval(both[2 * i], s, replies, marks[2 * i]) == (
            EvalV::Done(vs[2 * i]),
            marks[2 * i + 1],
        ));
        assert(eval(both[2 * i + 1], s, replies, marks[2 * i + 1]) == (
            EvalV::Done(vs[2 * i + 1]),
            marks[2 * i + 2],
        ));
        match f(i) {
            Some(entry) => {
                assert(kept(before).push(entry).drop_last() =~= kept(before));
            },
            None => {},
        }
    }
}

/// A map literal stores its entries in order, each under the value of its key; an entry
/// that is written as optional stores what it holds, or nothing.
pub proof fn a_map_holds_its_entries(
    e: Expression,
    m: MapExpr,
    vs: Seq<Val>,
    marks: Seq<nat>,
    s: ScopeV,
    replies: Seq<ReplyV>,
)
    requires
        e.expr == Expr::CelMap(m),
        forall|i: int| 0 <= i < m.entries@.len() ==> (#[trigger] m.entries@[i]) is MapEntry,
        in_turn(keys_and_values(m.entries@), vs, marks, s, replies),
        forall|i: int| 0 <= i < m.entries@.len() ==> is_key(#[trigger] vs[2 * i]),
    ensures
        eval(e, s, replies, marks[0]) == (
            EvalV::Done(
                Val::CelMap(
                    insert_all(
                        kept(Seq::new(m.entries@.len(), |i: int| stored(m.entries@, vs, i))),
                    ),
                ),
            ),
            marks.last(),
        ),
{
    lemma_entries(m.entries@, vs, marks, m.entries@.len(), s, replies);
}

/// A key of a map literal that is no key ends it, with that key, and its value is not
/// evaluated.
pub proof fn what_is_no_key_ends_a_map(
    e: Expression,
    m: MapExpr,
    key: Expression,
    k: Val,
    s: ScopeV,
    replies: Seq<ReplyV>,
    n: nat,
)
    requires
        e.expr == Expr::CelMap(m),
        m.entries@.len() == 1,
        m.entries@[0] matches EntryExpr::MapEntry { key: x, .. } && x == key,
        eval(key, s, replies, n).0 == EvalV::Done(k),
        !(k is Int) && !(k is UInt) && !(k is Bool) && !(k is Str),
    ensures
        eval(e, s, replies, n) == (
            EvalV::Fail(ErrV::UnsupportedKeyType(k)),
            eval(key, s, replies, n).1,
        ),
{
    assert(eval_entries(m.entries@, 0, s, replies, n) == (EntriesV::Done(Seq::empty()), n));
    assert(eval_entries(m.entries@, 1, s, replies, n) == (
        EntriesV::Fail(ErrV::UnsupportedKeyType(k)),
        eval(key, s, replies, n).1,
    ));
}

/// The values that can be keys: the integers, the booleans and the strings.
pub proof fn integers_booleans_and_strings_are_keys(v: Val)
    ensures
        is_key(v) <==> v is Int || v is UInt || v is Bool || v is Str,
{
}

/// What is not specified is asked for, and nothing answers for it.
pub proof fn what_is_not_specified_has_no_value(
    e: Expression,
    s: ScopeV,
    replies: Seq<ReplyV>,
    n: nat,
)
    requires
        e.expr is Unspecified,
    ensures
        eval(e, s, replies, n) == (EvalV::Ask(RequestV::Unspecified), n),
{
}

/// A map literal ends as the first of its keys and values ends that has no value; before it
/// come only keys that are keys.
pub proof fn a_map_ends_with_its_first_failure(
    e: Expression,
    m: MapExpr,
    vs: Seq<Val>,
    marks: Seq<nat>,
    k: nat,
    s: ScopeV,
    replies: Seq<ReplyV>,
)
    requires
        e.expr == Expr::CelMap(m),
        forall|i: int| 0 <= i < m.entries@.len() ==> (#[trigger] m.entries@[i]) is MapEntry,
        k < 2 * m.entries@.len(),
        in_turn(keys_and_values(m.entries@).take(k as int), vs, marks, s, replies),
        forall|i: int| 0 <= i && 2 * i < k ==> is_key(#[trigger] vs[2 * i]),
        !(eval(keys_and_values(m.entries@)[k as int], s, replies, marks[k as int]).0 is Done),
    ensures
        eval(e, s, replies, marks[0]) == eval(
            keys_and_values(m.entries@)[k as int],
            s,
            replies,
            marks[k as int],
        ),
{
    lemma_entries_part(m.entries@, vs, marks, k, k / 2, s, replies);
    lemma_entries_stop(m.entries@, vs, marks, k, m.entries@.len(), s, replies);
}

proof fn lemma_entries_part(
    entries: Seq<EntryExpr>,
    vs: Seq<Val>,
    marks: Seq<nat>,
    k: nat,
    j: nat,
    s: ScopeV,
    replies: Seq<ReplyV>,
)
    requires
        2 * j <= k < 2 * entries.len(),
        forall|i: int| 0 <= i < entries.len() ==> (#[trigger] entries[i]) is MapEntry,
        in_turn(keys_and_values(entries).take(k as int), vs, marks, s, replies),
        forall|i: int| 0 <= i && 2 * i < k ==> is_key(#[trigger] vs[2 * i]),
    ensures
        ({
            let (r, p) = eval_entries(entries, j, s, replies, marks[0]);
            r is Done && p == marks[2 * j as int]
        }),
    decreases j,
{
    if j > 0 {
        lemma_entries_part(entries, vs, marks, k, (j - 1) as nat, s, replies);
        let both = keys_and_values(entries);
        let part = both.take(k as int);
        let i = j - 1;
        assert((2 * i) / 2 == i && (2 * i) % 2 == 0 && (2 * i + 1) / 2 == i && (2 * i + 1) % 2
            == 1);
        assert(entries[i] is MapEntry);
        assert(is_key(vs[2 * i]));
        assert(part[2 * i] == both[2 * i] && part[2 * i + 1] == both[2 * i + 1]);
        assert(eval(part[2 * i], s, replies, marks[2 * i]) == (
            EvalV::Done(vs[2 * i]),
            marks[2 * i + 1],
        ));
        assert(eval(part[2 * i + 1], s, replies, marks[2 * i + 1]) == (
            EvalV::Done(vs[2 * i + 1]),
            marks[2 * i + 2],
        ));
    }
}

proof fn lemma_entries_stop(
    entries: Seq<EntryExpr>,
    vs: Seq<Val>,
    marks: Seq<nat>,
    k: nat,
    j: nat,
    s: ScopeV,
    replies: Seq<ReplyV>,
)
    requires
        k / 2 < j <= entries.len(),
        k < 2 * entries.len(),
        forall|i: int| 0 <= i < entries.len() ==> (#[trigger] entries[i]) is MapEntry,
        in_turn(keys_and_values(entries).take(k as int), vs, marks, s, replies),
        forall|i: int| 0 <= i && 2 * i < k ==> is_key(#[trigger] vs[2 * i]),
        !(eval(keys_and_values(entries)[k as int], s, replies, marks[k as int]).0 is Done),
    ensures
        ({
            let (r, p) = eval(keys_and_values(entries)[k as int], s, replies, marks[k as int]);
            eval_entries(entries, j, s, replies, marks[0]) == (
                match r {
                    EvalV::Fail(f) => EntriesV::Fail(f),
                    EvalV::Ask(q) => EntriesV::Ask(q),
                    EvalV::Done(_) => EntriesV::Done(Seq::empty()),
                },
                p,
            )
        }),
    decreases j,
{
    let h = k / 2;
    if j > h + 1 {
        lemma_entries_stop(entries, vs, marks, k, (j - 1) as nat, s, replies);
    } else {
        lemma_entries_part(entries, vs, marks, k, h, s, replies);
        let both = keys_and_values(entries);
        let part = both.take(k as int);
        assert(entries[h as int] is MapEntry);
        assert((2 * h) / 2 == h && (2 * h) % 2 == 0 && (2 * h + 1) / 2 == h && (2 * h + 1) % 2
            == 1);
        if k == 2 * h + 1 {
            let a = 2 * h as int;
            assert(part[a] == both[a]);
            assert(is_key(vs[2 * (h as int)]));
            assert(eval(part[a], s, replies, marks[a]) == (EvalV::Done(vs[a]), marks[a + 1]));
        }
    }
}

} // verus!
