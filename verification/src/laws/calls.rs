//! What is asked of the embedding program.

use crate::ast::{operator, CallExpr, EntryExpr, Expr, Expression, StructExpr};
use crate::context::ScopeV;
use crate::laws::operators::every_operator_has_its_name;
use crate::model::{position, ErrV, Val};
use crate::map::lemma_position;
use crate::semantics::{
    eval, eval_args, eval_call, eval_fields, eval_struct, ArgsV, EntriesV, EvalV, ReplyV, RequestV,
};
use vstd::prelude::*;

verus! {

/// Whether expressions come to `vs`, one after the other. `marks` are the numbers of
/// replies taken before each of them and after the last.
pub open spec fn in_turn(
    es: Seq<Expression>,
    vs: Seq<Val>,
    marks: Seq<nat>,
    s: ScopeV,
    replies: Seq<ReplyV>,
) -> bool {
    &&& vs.len() == es.len()
    &&& marks.len() == es.len() + 1
    &&& forall|i: int|
        0 <= i < es.len() ==> eval(#[trigger] es[i], s, replies, marks[i]) == (
            EvalV::Done(vs[i]),
            marks[i + 1],
        )
}

/// Whether a call of a name with so many arguments is that of an operator.
pub open spec fn is_operation(name: Seq<char>, k: nat) -> bool {
    ||| k == 3 && name == "_?_:_"@
    ||| k == 1 && (name == "!_"@ || name == "-_"@ || name == "@not_strictly_false"@)
    ||| k == 2 && (name == "_||_"@ || name == "_&&_"@ || name == "_==_"@ || name == "_!=_"@ || name
        == "_[_]"@ || name == "_[?_]"@ || name == "_?._"@ || name == "@in"@ || name == "_+_"@
        || name == "_-_"@ || name == "_*_"@ || name == "_/_"@ || name == "_%_"@ || name == "_<_"@
        || name == "_<=_"@ || name == "_>_"@ || name == "_>=_"@)
}

pub(crate) proof fn lemma_args(
    es: Seq<Expression>,
    vs: Seq<Val>,
    marks: Seq<nat>,
    k: nat,
    s: ScopeV,
    replies: Seq<ReplyV>,
)
    requires
        k <= es.len(),
        in_turn(es.take(k as int), vs, marks, s, replies),
    ensures
        eval_args(es, k, s, replies, marks[0]) == (ArgsV::Done(vs), marks[k as int]),
    decreases k,
{
    if k == 0 {
        assert(vs =~= Seq::<Val>::empty());
    } else {
        let before = es.take(k as int);
        let short = es.take(k - 1);
        assert forall|i: int| 0 <= i < short.len() implies eval(
            #[trigger] short[i],
            s,
            replies,
            marks.drop_last()[i],
        ) == (EvalV::Done(vs.drop_last()[i]), marks.drop_last()[i + 1]) by {
            assert(before[i] == short[i]);
        }
        lemma_args(es, vs.drop_last(), marks.drop_last(), (k - 1) as nat, s, replies);
        assert(before[k - 1] == es[k - 1]);
        assert(vs.drop_last().push(vs[k - 1]) =~= vs);
    }
}

proof fn lemma_args_stop(
    es: Seq<Expression>,
    vs: Seq<Val>,
    marks: Seq<nat>,
    k: nat,
    j: nat,
    s: ScopeV,
    replies: Seq<ReplyV>,
)
    requires
        k < j <= es.len(),
        in_turn(es.take(k as int), vs, marks, s, replies),
        !(eval(es[k as int], s, replies, marks[k as int]).0 is Done),
    ensures
        ({
            let (r, p) = eval(es[k as int], s, replies, marks[k as int]);
            eval_args(es, j, s, replies, marks[0]) == (
                match r {
                    EvalV::Fail(e) => ArgsV::Fail(e),
                    EvalV::Ask(q) => ArgsV::Ask(q),
                    EvalV::Done(v) => ArgsV::Done(Seq::empty()),
                },
                p,
            )
        }),
    decreases j,
{
    lemma_args(es, vs, marks, k, s, replies);
    if j > k + 1 {
        lemma_args_stop(es, vs, marks, k, (j - 1) as nat, s, replies);
    }
}

/// How a request ends: with the reply to it, or unanswered.
pub open spec fn replied(
    request: RequestV,
    replies: Seq<ReplyV>,
    n: nat,
    declined: (EvalV, nat),
) -> (EvalV, nat) {
    if n >= replies.len() {
        (EvalV::Ask(request), n)
    } else {
        match replies[n as int] {
            ReplyV::Value(v) => (EvalV::Done(v), n + 1),
            ReplyV::Failed(e) => (EvalV::Fail(e), n + 1),
            ReplyV::Declined => declined,
        }
    }
}

/// A call of a function asks for the overload that takes the values of the arguments,
/// all of them and in their order. Where the program has none, it asks for the function
/// with the same values, and where there is none either, the name is not declared.
pub proof fn a_function_is_called_with_its_arguments(
    e: Expression,
    call: CallExpr,
    vs: Seq<Val>,
    marks: Seq<nat>,
    s: ScopeV,
    replies: Seq<ReplyV>,
)
    requires
        e.expr == Expr::Call(call),
        !is_operation(call.func_name@, call.args@.len()),
        call.target is None,
        in_turn(call.args@, vs, marks, s, replies),
    ensures
        ({
            let name = call.func_name@;
            let m = marks.last();
            eval(e, s, replies, marks[0]) == replied(
                RequestV::Overload(name, vs),
                replies,
                m,
                replied(
                    RequestV::Function(name, vs),
                    replies,
                    m + 1,
                    (EvalV::Fail(ErrV::UndeclaredReference(name)), m + 2),
                ),
            )
        }),
{
    every_operator_has_its_name(call.func_name@);
    assert(call.args@.take(call.args@.len() as int) =~= call.args@);
    lemma_args(call.args@, vs, marks, call.args@.len(), s, replies);
    assert(eval(e, s, replies, marks[0]) == eval_call(call, s, replies, marks[0]));
}

/// A call of a method evaluates its arguments and then its receiver. It asks for the
/// overload that takes the receiver and the arguments, the receiver first, and then for
/// the function with the receiver and the arguments. A receiver that a comprehension
/// binds, or that is no name, is no namespace.
pub proof fn a_method_is_called_with_its_receiver(
    e: Expression,
    call: CallExpr,
    target: Expression,
    receiver: Val,
    vs: Seq<Val>,
    marks: Seq<nat>,
    s: ScopeV,
    replies: Seq<ReplyV>,
)
    requires
        e.expr == Expr::Call(call),
        !is_operation(call.func_name@, call.args@.len()),
        call.target matches Some(t) && *t == target,
        target.expr matches Expr::Ident(x) ==> s.locals.dom().contains(x@),
        in_turn(call.args@, vs, marks, s, replies),
        eval(target, s, replies, marks.last()).0 == EvalV::Done(receiver),
    ensures
        ({
            let name = call.func_name@;
            let m = eval(target, s, replies, marks.last()).1;
            eval(e, s, replies, marks[0]) == replied(
                RequestV::MemberOverload(name, seq![receiver] + vs),
                replies,
                m,
                replied(
                    RequestV::MemberFunction(name, receiver, vs),
                    replies,
                    m + 1,
                    (EvalV::Fail(ErrV::UndeclaredReference(name)), m + 2),
                ),
            )
        }),
{
    every_operator_has_its_name(call.func_name@);
    assert(call.args@.take(call.args@.len() as int) =~= call.args@);
    lemma_args(call.args@, vs, marks, call.args@.len(), s, replies);
    assert(eval(e, s, replies, marks[0]) == eval_call(call, s, replies, marks[0]));
}

/// A receiver that is a name which no comprehension binds may be a namespace: the
/// program is first asked for the overload, and then for the function, that the
/// namespace has of that name, with the arguments alone. Only where it has neither is
/// the name evaluated, and the method called with it.
pub proof fn a_namespace_is_asked_first(
    e: Expression,
    call: CallExpr,
    target: Expression,
    prefix: Seq<char>,
    vs: Seq<Val>,
    marks: Seq<nat>,
    s: ScopeV,
    replies: Seq<ReplyV>,
)
    requires
        e.expr == Expr::Call(call),
        !is_operation(call.func_name@, call.args@.len()),
        call.target matches Some(t) && *t == target,
        target.expr matches Expr::Ident(x) && x@ == prefix,
        !s.locals.dom().contains(prefix),
        in_turn(call.args@, vs, marks, s, replies),
    ensures
        ({
            let name = call.func_name@;
            let m = marks.last();
            let asked = eval(e, s, replies, marks[0]);
            let none = m + 1 < replies.len() && replies[m as int] is Declined && replies[(m + 1) as int]
                is Declined;
            let (t, p) = eval(target, s, replies, m + 2);
            &&& !none ==> asked == replied(
                RequestV::QualifiedOverload(prefix, name, vs),
                replies,
                m,
                replied(RequestV::QualifiedFunction(prefix, name, vs), replies, m + 1, asked),
            )
            &&& none && !(t is Done) ==> asked == (t, p)
            &&& none && t is Done ==> asked == replied(
                RequestV::MemberOverload(name, seq![t->Done_0] + vs),
                replies,
                p,
                replied(
                    RequestV::MemberFunction(name, t->Done_0, vs),
                    replies,
                    p + 1,
                    (EvalV::Fail(ErrV::UndeclaredReference(name)), p + 2),
                ),
            )
        }),
{
    every_operator_has_its_name(call.func_name@);
    assert(call.args@.take(call.args@.len() as int) =~= call.args@);
    lemma_args(call.args@, vs, marks, call.args@.len(), s, replies);
    assert(eval(e, s, replies, marks[0]) == eval_call(call, s, replies, marks[0]));
}

/// A call ends as the first of its arguments ends that has no value, and nothing is asked
/// for it.
pub proof fn arguments_come_before_their_call(
    e: Expression,
    call: CallExpr,
    vs: Seq<Val>,
    marks: Seq<nat>,
    k: nat,
    s: ScopeV,
    replies: Seq<ReplyV>,
)
    requires
        e.expr == Expr::Call(call),
        !is_operation(call.func_name@, call.args@.len()),
        k < call.args@.len(),
        in_turn(call.args@.take(k as int), vs, marks, s, replies),
        !(eval(call.args@[k as int], s, replies, marks[k as int]).0 is Done),
    ensures
        eval(e, s, replies, marks[0]) == eval(call.args@[k as int], s, replies, marks[k as int]),
{
    every_operator_has_its_name(call.func_name@);
    lemma_args_stop(call.args@, vs, marks, k, call.args@.len(), s, replies);
    assert(eval(e, s, replies, marks[0]) == eval_call(call, s, replies, marks[0]));
}

/// The expressions that a struct literal gives to its fields, where it holds nothing
/// else.
pub open spec fn field_values(entries: Seq<EntryExpr>) -> Seq<Expression> {
    Seq::new(
        entries.len(),
        |i: int|
            match entries[i] {
                EntryExpr::StructField { value, .. } => value,
                EntryExpr::MapEntry { value, .. } => value,
            },
    )
}

/// Whether the entries of a struct literal are these fields, no two of one name.
pub open spec fn names_fields(entries: Seq<EntryExpr>, names: Seq<Seq<char>>) -> bool {
    &&& names.len() == entries.len()
    &&& names.no_duplicates()
    &&& forall|i: int|
        0 <= i < entries.len() ==> (#[trigger] entries[i] matches EntryExpr::StructField {
            field,
            ..
        } && field@ == names[i])
}

/// Fields with their values, in order.
pub open spec fn filled(names: Seq<Seq<char>>, vs: Seq<Val>) -> Seq<(Val, Val)> {
    Seq::new(names.len(), |i: int| (Val::Str(names[i]), vs[i]))
}

proof fn lemma_fields(
    entries: Seq<EntryExpr>,
    names: Seq<Seq<char>>,
    vs: Seq<Val>,
    marks: Seq<nat>,
    k: nat,
    s: ScopeV,
    replies: Seq<ReplyV>,
)
    requires
        k <= entries.len(),
        names_fields(entries, names),
        in_turn(field_values(entries), vs, marks, s, replies),
    ensures
        eval_fields(entries, k, s, replies, marks[0]) == (
            EntriesV::Done(filled(names, vs).take(k as int)),
            marks[k as int],
        ),
    decreases k,
{
    let all = filled(names, vs);
    if k == 0 {
        assert(all.take(0) =~= Seq::<(Val, Val)>::empty());
    } else {
        lemma_fields(entries, names, vs, marks, (k - 1) as nat, s, replies);
        let before = all.take(k - 1);
        let name = Val::Str(names[k - 1]);
        lemma_position(before, name);
        if position(before, name) >= 0 {
            let p = position(before, name);
            assert(before[p] == all[p]);
            assert(names[p] == names[k - 1]);
        }
        assert(field_values(entries)[k - 1] == match entries[k - 1] {
            EntryExpr::StructField { value, .. } => value,
            EntryExpr::MapEntry { value, .. } => value,
        });
        let e = field_values(entries)[k - 1];
        assert(eval(e, s, replies, marks[k - 1]) == (EvalV::Done(vs[k - 1]), marks[k as int]));
        assert(before.push((name, vs[k - 1])) =~= all.take(k as int));
    }
}

/// A struct literal first asks whether there is a type of its name, and where there is
/// none, the type is unexpected. Then its fields are evaluated in turn, and the program
/// is asked to build the struct from all of them, each under its name and in order.
pub proof fn a_struct_is_built_from_its_fields(
    e: Expression,
    st: StructExpr,
    names: Seq<Seq<char>>,
    vs: Seq<Val>,
    marks: Seq<nat>,
    n: nat,
    s: ScopeV,
    replies: Seq<ReplyV>,
)
    requires
        e.expr == Expr::Struct(st),
        names_fields(st.entries@, names),
        in_turn(field_values(st.entries@), vs, marks, s, replies),
        marks[0] == n + 1,
    ensures
        ({
            let label = st.type_label@;
            let r = eval(e, s, replies, n);
            &&& n >= replies.len() ==> r == (EvalV::Ask(RequestV::StructType(label)), n)
            &&& n < replies.len() && replies[n as int] is Declined ==> r == (
                EvalV::Fail(ErrV::UnexpectedType(label, "known struct"@)),
                n + 1,
            )
            &&& n < replies.len() && !(replies[n as int] is Declined) ==> r == replied(
                RequestV::NewStruct(label, filled(names, vs)),
                replies,
                marks.last(),
                (EvalV::Fail(ErrV::NoSuchOverload), marks.last() + 1),
            )
        }),
{
    lemma_fields(st.entries@, names, vs, marks, st.entries@.len(), s, replies);
    assert(filled(names, vs).take(st.entries@.len() as int) =~= filled(names, vs));
    assert(eval(e, s, replies, n) == eval_struct(st, s, replies, n));
}

/// A struct literal ends as the first of its fields ends that has no value, and the program
/// is not asked to build anything.
pub proof fn a_struct_ends_with_its_first_failure(
    e: Expression,
    st: StructExpr,
    names: Seq<Seq<char>>,
    vs: Seq<Val>,
    marks: Seq<nat>,
    k: nat,
    n: nat,
    s: ScopeV,
    replies: Seq<ReplyV>,
)
    requires
        e.expr == Expr::Struct(st),
        names_fields(st.entries@, names),
        k < st.entries@.len(),
        in_turn(field_values(st.entries@).take(k as int), vs, marks, s, replies),
        marks[0] == n + 1,
        n < replies.len() && !(replies[n as int] is Declined),
        !(eval(field_values(st.entries@)[k as int], s, replies, marks[k as int]).0 is Done),
    ensures
        eval(e, s, replies, n) == eval(
            field_values(st.entries@)[k as int],
            s,
            replies,
            marks[k as int],
        ),
{
    lemma_fields_stop(st.entries@, names, vs, marks, k, st.entries@.len(), s, replies);
    assert(eval(e, s, replies, n) == eval_struct(st, s, replies, n));
}

proof fn lemma_fields_part(
    entries: Seq<EntryExpr>,
    names: Seq<Seq<char>>,
    vs: Seq<Val>,
    marks: Seq<nat>,
    k: nat,
    j: nat,
    s: ScopeV,
    replies: Seq<ReplyV>,
)
    requires
        j <= k <= entries.len(),
        names_fields(entries, names),
        in_turn(field_values(entries).take(k as int), vs, marks, s, replies),
    ensures
        ({
            let (r, p) = eval_fields(entries, j, s, replies, marks[0]);
            r is Done && p == marks[j as int]
        }),
    decreases j,
{
    if j > 0 {
        lemma_fields_part(entries, names, vs, marks, k, (j - 1) as nat, s, replies);
        let part = field_values(entries).take(k as int);
        assert(part[j - 1] == field_values(entries)[j - 1]);
        assert(entries[j - 1] is StructField);
        assert(eval(part[j - 1], s, replies, marks[j - 1]) == (
            EvalV::Done(vs[j - 1]),
            marks[j as int],
        ));
    }
}

proof fn lemma_fields_stop(
    entries: Seq<EntryExpr>,
    names: Seq<Seq<char>>,
    vs: Seq<Val>,
    marks: Seq<nat>,
    k: nat,
    j: nat,
    s: ScopeV,
    replies: Seq<ReplyV>,
)
    requires
        k < j <= entries.len(),
        names_fields(entries, names),
        in_turn(field_values(entries).take(k as int), vs, marks, s, replies),
        !(eval(field_values(entries)[k as int], s, replies, marks[k as int]).0 is Done),
    ensures
        ({
            let (r, p) = eval(field_values(entries)[k as int], s, replies, marks[k as int]);
            eval_fields(entries, j, s, replies, marks[0]) == (
                match r {
                    EvalV::Fail(f) => EntriesV::Fail(f),
                    EvalV::Ask(q) => EntriesV::Ask(q),
                    EvalV::Done(_) => EntriesV::Done(Seq::empty()),
                },
                p,
            )
        }),
    decreases j,
{
    if j > k + 1 {
        lemma_fields_stop(entries, names, vs, marks, k, (j - 1) as nat, s, replies);
    } else {
        lemma_fields_part(entries, names, vs, marks, k, k, s, replies);
        assert(entries[k as int] is StructField);
    }
}

} // verus!
