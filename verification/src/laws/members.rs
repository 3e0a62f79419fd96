//! Indexing, selection and membership in expressions.


use crate::ast::{Expr, Expression, SelectExpr};
use crate::context::ScopeV;
use crate::laws::leaves::{indexing_in_place_is_indexing_what_is_read_back, is_sound};
use crate::laws::operators::{are_public, calls, every_operator_has_its_name, taken, takes};
use crate::map::lemma_position;
use crate::model::{
    distinct_keys, index, is_key, kind_name, leaf_eq, position, val_eq, val_type, ErrV, ReadError,
    Val,
};
use crate::ops::leafable;
use crate::runtime::interned::held_index;
use crate::runtime::object::{
    map_leaf_view, read_root, root_view, ListStrategy, MapStrategy, W_Root,
};
use crate::semantics::{arg, eval, eval_leaf, EvalV, ReplyV};
use vstd::prelude::*;

verus! {

/// Whether a value is in public form, or is held as a leaf that is read back as it.
pub open(crate) spec fn is_held_as(leaf: Option<W_Root>, v: Val) -> bool {
    match leaf {
        None => true,
        Some(w) => is_sound(w) && read_root(w) == Ok::<Val, ReadError>(v),
    }
}

proof fn lemma_held_index(c: Val, leaf: Option<W_Root>, k: Val)
    requires
        is_held_as(leaf, c),
    ensures
        match held_index(c, leaf, k) {
            Ok(h) => index(c, k) == Ok::<Val, ErrV>(h.val),
            Err(e) => index(c, k) == Err::<Val, ErrV>(e),
        },
{
    match leaf {
        Some(w) => indexing_in_place_is_indexing_what_is_read_back(w, k),
        None => {
            reveal(held_index);
        },
    }
}

/// `c[k]` and `c[?k]` are called by these names. `c[k]` is the element that is there;
/// `c[?k]` is an optional that holds it, and an empty one where there is none.
pub proof fn the_indexing_operators_index(
    e: Expression,
    c: Val,
    k: Val,
    s: ScopeV,
    replies: Seq<ReplyV>,
    n: nat,
)
    requires
        takes(e, c, k, s, replies, n),
        is_held_as(eval_leaf(arg(e, 0), s, replies, n), c),
        !(c is Optional),
    ensures
        ({
            let r = eval(e, s, replies, n);
            let m = taken(e, s, replies, n);
            &&& calls(e, "_[_]"@, 2) ==> r == (
                match index(c, k) {
                    Ok(v) => EvalV::Done(v),
                    Err(f) => EvalV::Fail(f),
                },
                m,
            )
            &&& calls(e, "_[?_]"@, 2) ==> r == (
                EvalV::Done(
                    match index(c, k) {
                        Ok(v) => Val::Optional(Some(Box::new(v))),
                        Err(_) => Val::Optional(None),
                    },
                ),
                m,
            )
        }),
{
    every_operator_has_its_name(""@);
    lemma_held_index(c, eval_leaf(arg(e, 0), s, replies, n), k);
}

/// Indexing an empty optional gives it back, without its key being evaluated; indexing
/// an optional that holds something gives the optional of what is found in that.
pub proof fn optionals_are_indexed_optionally(
    e: Expression,
    s: ScopeV,
    replies: Seq<ReplyV>,
    n: nat,
)
    requires
        calls(e, "_[_]"@, 2) || calls(e, "_[?_]"@, 2),
    ensures
        ({
            let (c, p) = eval(arg(e, 0), s, replies, n);
            let (k, q) = eval(arg(e, 1), s, replies, p);
            match c {
                EvalV::Done(Val::Optional(None)) => eval(e, s, replies, n) == (c, p),
                EvalV::Done(Val::Optional(Some(inner))) => k is Done ==> eval(e, s, replies, n) == (
                    EvalV::Done(
                        match index(*inner, k->Done_0) {
                            Ok(v) => Val::Optional(Some(Box::new(v))),
                            Err(_) => Val::Optional(None),
                        },
                    ),
                    q,
                ),
                EvalV::Done(_) => !(k is Done) ==> eval(e, s, replies, n) == (k, q),
                _ => eval(e, s, replies, n) == (c, p),
            }
        }),
{
    every_operator_has_its_name(""@);
    let (c, p) = eval(arg(e, 0), s, replies, n);
    let (k, q) = eval(arg(e, 1), s, replies, p);
    match c {
        EvalV::Done(Val::Optional(Some(inner))) => {
            if k is Done {
                lemma_held_index(*inner, None, k->Done_0);
            }
        },
        _ => {},
    }
}

/// The place that a number counts from the start of a list, if it does.
pub open spec fn place(k: Val) -> Option<int> {
    match k {
        Val::Int(i) => Some(i as int),
        Val::UInt(u) => Some(u as int),
        _ => None,
    }
}

/// The element of a list at a place is the one that so many others come before; outside
/// the list there is none. What is no integer is no place.
pub proof fn a_list_is_indexed_by_place(items: Seq<Val>, k: Val)
    ensures
        index(Val::List(items), k) == match place(k) {
            Some(i) => if 0 <= i < items.len() {
                Ok::<Val, ErrV>(items[i])
            } else {
                Err(ErrV::IndexOutOfBounds(k))
            },
            None => Err(ErrV::UnexpectedType(kind_name(val_type(k)), "int|uint"@)),
        },
{
}

/// Whether `a` and `b` are one number, as an `int` and as a `uint`.
pub open spec fn are_one_number(a: Val, b: Val) -> bool {
    match (a, b) {
        (Val::Int(i), Val::UInt(u)) => i == u,
        (Val::UInt(u), Val::Int(i)) => i == u,
        _ => false,
    }
}

/// Whether `k` stands as a key.
pub open spec fn has_key(m: Seq<(Val, Val)>, k: Val) -> bool {
    exists|i: int| 0 <= i < m.len() && (#[trigger] m[i]).0 == k
}

/// A map is indexed by its keys. The value under a key is the one that stands with it;
/// where the key is a number that does not stand there, the value is the one under the
/// same number of the other integer type, and where there is none either, there is no
/// such key. What cannot be a key is refused.
pub proof fn a_map_is_indexed_by_its_keys(m: Seq<(Val, Val)>, k: Val, i: int)
    requires
        distinct_keys(m),
    ensures
        !is_key(k) ==> index(Val::CelMap(m), k) == Err::<Val, ErrV>(ErrV::UnsupportedKeyType(k)),
        0 <= i < m.len() && m[i].0 == k ==> index(Val::CelMap(m), k) == Ok::<Val, ErrV>(m[i].1),
        0 <= i < m.len() && are_one_number(m[i].0, k) && !has_key(m, k) ==> index(
            Val::CelMap(m),
            k,
        ) == Ok::<Val, ErrV>(m[i].1),
        is_key(k) && (forall|j: int|
            0 <= j < m.len() ==> (#[trigger] m[j]).0 != k && !are_one_number(m[j].0, k)) ==> (index(
            Val::CelMap(m),
            k,
        ) matches Err(ErrV::NoSuchKey(_))),
        k is Str && !has_key(m, k) ==> index(Val::CelMap(m), k) == Err::<Val, ErrV>(
            ErrV::NoSuchKey(k->Str_0),
        ),
{
    lemma_position(m, k);
    match k {
        Val::Int(x) => {
            if x >= 0 {
                lemma_position(m, Val::UInt(x as u64));
            }
        },
        Val::UInt(x) => {
            if x <= i64::MAX {
                lemma_position(m, Val::Int(x as i64));
            }
        },
        _ => {},
    }
    if 0 <= i < m.len() && are_one_number(m[i].0, k) && !has_key(m, k) {
        let p = position(m, k);
        if p >= 0 {
            assert(m[p].0 == k);
        }
        match (m[i].0, k) {
            (Val::UInt(u), Val::Int(x)) => {
                assert(m[i].0 == Val::UInt(x as u64));
            },
            (Val::Int(x), Val::UInt(u)) => {
                assert(m[i].0 == Val::Int(u as i64));
            },
            _ => {},
        }
    }
    if k is Str && !has_key(m, k) {
        let p = position(m, k);
        if p >= 0 {
            assert(m[p].0 == k);
        }
    }
}

/// A struct is indexed by the names of its fields, and by nothing else; no other value
/// is indexed at all.
pub proof fn a_struct_is_indexed_by_its_fields(
    name: Seq<char>,
    fields: Seq<(Val, Val)>,
    k: Val,
    i: int,
    v: Val,
)
    requires
        distinct_keys(fields),
    ensures
        k is Str && 0 <= i < fields.len() && fields[i].0 == k ==> index(
            Val::Struct(name, fields),
            k,
        ) == Ok::<Val, ErrV>(fields[i].1),
        k is Str && !has_key(fields, k) ==> index(Val::Struct(name, fields), k) == Err::<Val, ErrV>(
            ErrV::NoSuchKey(k->Str_0),
        ),
        !(k is Str) ==> index(Val::Struct(name, fields), k) == Err::<Val, ErrV>(
            ErrV::UnsupportedIndex(k, Val::Struct(name, fields)),
        ),
        !(v is List) && !(v is CelMap) && !(v is Struct) ==> index(v, k) == Err::<Val, ErrV>(
            ErrV::NoSuchOverload,
        ),
{
    lemma_position(fields, k);
    if k is Str && !has_key(fields, k) {
        let p = position(fields, k);
        if p >= 0 {
            assert(fields[p].0 == k);
        }
    }
}

/// `c.name` is what indexing by the name gives. `has(c.name)` says of a map and of a
/// struct whether the field is there; of anything else it is `c.name` itself.
pub proof fn a_selection_is_an_index(
    e: Expression,
    sel: SelectExpr,
    c: Val,
    s: ScopeV,
    replies: Seq<ReplyV>,
    n: nat,
)
    requires
        e.expr == Expr::Select(sel),
        eval(*sel.operand, s, replies, n).0 == EvalV::Done(c),
        is_held_as(eval_leaf(*sel.operand, s, replies, n), c),
    ensures
        ({
            let p = eval(*sel.operand, s, replies, n).1;
            let name = Val::Str(sel.field@);
            let found = match index(c, name) {
                Ok(v) => EvalV::Done(v),
                Err(f) => EvalV::Fail(f),
            };
            &&& !sel.test ==> eval(e, s, replies, n) == (found, p)
            &&& sel.test && (c is CelMap || c is Struct) ==> eval(e, s, replies, n) == (
                EvalV::Done(Val::Bool(index(c, name) is Ok)),
                p,
            )
            &&& sel.test && !(c is CelMap) && !(c is Struct) ==> eval(e, s, replies, n) == (found, p)
        }),
{
    let leaf = eval_leaf(*sel.operand, s, replies, n);
    let name = Val::Str(sel.field@);
    lemma_held_index(c, leaf, name);
    match leaf {
        Some(W_Root::CelMap(m)) => {
            lemma_held_index(c, leaf, name);
            reveal(held_index);
            if m.strategy == MapStrategy::Object {
                lemma_position(map_leaf_view(m), name);
            }
        },
        _ => {},
    }
}

/// A selection ends as its operand ends that has no value.
pub proof fn an_operand_comes_before_its_selection(
    e: Expression,
    sel: SelectExpr,
    s: ScopeV,
    replies: Seq<ReplyV>,
    n: nat,
)
    requires
        e.expr == Expr::Select(sel),
        !(eval(*sel.operand, s, replies, n).0 is Done),
    ensures
        eval(e, s, replies, n) == eval(*sel.operand, s, replies, n),
{
}

/// `c?.name` is an optional that holds the field, and fails where `c.name` fails. On an
/// empty optional it is an empty optional. On an optional that holds something it is an
/// optional of the field of that, and where there is none, an optional of an empty one.
pub proof fn an_optional_selection_holds_the_field(
    e: Expression,
    c: Val,
    name: Seq<char>,
    s: ScopeV,
    replies: Seq<ReplyV>,
    n: nat,
)
    requires
        calls(e, "_?._"@, 2),
        takes(e, c, Val::Str(name), s, replies, n),
        is_held_as(eval_leaf(arg(e, 0), s, replies, n), c),
        eval_leaf(arg(e, 1), s, replies, eval(arg(e, 0), s, replies, n).1) is None,
    ensures
        eval(e, s, replies, n).0 == match c {
            Val::Optional(None) => EvalV::Done(Val::Optional(None)),
            Val::Optional(Some(inner)) => EvalV::Done(
                Val::Optional(
                    Some(
                        Box::new(
                            match index(*inner, Val::Str(name)) {
                                Ok(v) => v,
                                Err(_) => Val::Optional(None),
                            },
                        ),
                    ),
                ),
            ),
            _ => match index(c, Val::Str(name)) {
                Ok(v) => EvalV::Done(Val::Optional(Some(Box::new(v)))),
                Err(f) => EvalV::Fail(f),
            },
        },
{
    every_operator_has_its_name(""@);
    match c {
        Val::Optional(Some(inner)) => lemma_held_index(*inner, None, Val::Str(name)),
        _ => lemma_held_index(c, eval_leaf(arg(e, 0), s, replies, n), Val::Str(name)),
    }
}

/// The name of an optional selection is a string in public form; nothing else will do.
pub proof fn an_optional_selection_needs_a_name(
    e: Expression,
    c: Val,
    k: Val,
    s: ScopeV,
    replies: Seq<ReplyV>,
    n: nat,
)
    requires
        calls(e, "_?._"@, 2),
        takes(e, c, k, s, replies, n),
        !(k is Str) || eval_leaf(arg(e, 1), s, replies, eval(arg(e, 0), s, replies, n).1) is Some,
    ensures
        eval(e, s, replies, n).0 == EvalV::Fail(
            ErrV::FunctionError("_?._"@, "field must be string"@),
        ),
{
    every_operator_has_its_name(""@);
}

/// `k in c`, called by its name with the value first: a list holds what equals one of its
/// elements, a map holds its keys and no others, and what cannot be a key is refused.
/// Nothing else holds anything.
pub proof fn membership_is_asked_of_the_container(
    e: Expression,
    k: Val,
    c: Val,
    s: ScopeV,
    replies: Seq<ReplyV>,
    n: nat,
)
    requires
        calls(e, "@in"@, 2),
        takes(e, k, c, s, replies, n),
        are_public(e, s, replies, n),
    ensures
        eval(e, s, replies, n) == (
            match c {
                Val::List(items) => EvalV::Done(
                    Val::Bool(
                        exists|i: int| 0 <= i < items.len() && val_eq(#[trigger] items[i], k),
                    ),
                ),
                Val::CelMap(m) => if k is Int || k is UInt || k is Bool || k is Str {
                    EvalV::Done(Val::Bool(has_key(m, k)))
                } else {
                    EvalV::Fail(ErrV::UnsupportedKeyType(k))
                },
                _ => EvalV::Fail(ErrV::NoSuchOverload),
            },
            taken(e, s, replies, n),
        ),
{
    every_operator_has_its_name(""@);
    match c {
        Val::CelMap(m) => {
            lemma_position(m, k);
            let p = position(m, k);
            if p >= 0 {
                assert(m[p].0 == k);
            }
        },
        _ => {},
    }
}

/// `k in c` on a container that is held as a leaf. A list of unboxed integers holds its
/// integers and nothing else; any other list holds what equals one of its elements to the
/// runtime. A map holds its keys and no others. What has no leaf has no such overload
/// there, and no other leaf holds anything.
pub proof fn membership_is_asked_of_the_leaf(
    e: Expression,
    k: Val,
    c: Val,
    w: W_Root,
    s: ScopeV,
    replies: Seq<ReplyV>,
    n: nat,
)
    requires
        calls(e, "@in"@, 2),
        takes(e, k, c, s, replies, n),
        ({
            let p = eval(arg(e, 0), s, replies, n).1;
            eval_leaf(arg(e, 1), s, replies, p) == Some(w)
        }),
        eval_leaf(arg(e, 0), s, replies, n) is None,
    ensures
        ({
            let r = eval(e, s, replies, n).0;
            if !leafable(k) {
                r == EvalV::Fail(ErrV::NoSuchOverload)
            } else {
                match w {
                    W_Root::List(l) => {
                        let items = root_view(w)->List_0;
                        &&& l.strategy_of() == ListStrategy::Ints ==> r == EvalV::Done(
                            Val::Bool(k is Int && items.contains(k)),
                        )
                        &&& l.strategy_of() != ListStrategy::Ints ==> r == EvalV::Done(
                            Val::Bool(
                                exists|i: int| 0 <= i < items.len() && leaf_eq(#[trigger] items[i], k),
                            ),
                        )
                    },
                    W_Root::CelMap(m) => if k is Int || k is UInt || k is Bool || k is Str {
                        r == EvalV::Done(Val::Bool(has_key(map_leaf_view(m), k)))
                    } else {
                        r == EvalV::Fail(ErrV::UnsupportedKeyType(k))
                    },
                    _ => r == EvalV::Fail(ErrV::NoSuchOverload),
                }
            }
        }),
{
    every_operator_has_its_name(""@);
    match w {
        W_Root::CelMap(m) => {
            let entries = map_leaf_view(m);
            lemma_position(entries, k);
            let p = position(entries, k);
            if p >= 0 {
                assert(entries[p].0 == k);
            }
        },
        _ => {},
    }
}

/// What an expression's value is held as. A conditional's is held as that of the branch
/// that is picked; operators that compute, and literals, give a value in public form.
pub proof fn a_picked_leaf_stays_a_leaf(
    e: Expression,
    b: bool,
    s: ScopeV,
    replies: Seq<ReplyV>,
    n: nat,
)
    ensures
        ({
            let (c, p) = eval(arg(e, 0), s, replies, n);
            calls(e, "_?_:_"@, 3) && c == EvalV::Done(Val::Bool(b)) ==> eval_leaf(e, s, replies, n)
                == eval_leaf(
                arg(
                    e,
                    if b {
                        1
                    } else {
                        2
                    },
                ),
                s,
                replies,
                p,
            )
        }),
        calls(e, "_+_"@, 2) || calls(e, "_-_"@, 2) || calls(e, "_==_"@, 2) || calls(e, "_&&_"@, 2)
            || calls(e, "_||_"@, 2) || calls(e, "_<_"@, 2) || calls(e, "!_"@, 1) || calls(
            e,
            "_[?_]"@,
            2,
        ) || calls(e, "_?._"@, 2) ==> eval_leaf(e, s, replies, n) is None,
        e.expr is List || e.expr is CelMap || e.expr is Struct || e.expr is Literal ==> eval_leaf(
            e,
            s,
            replies,
            n,
        ) is None,
{
    every_operator_has_its_name(""@);
}

/// What a list leaf that holds references refers to at a place stays the leaf that it is
/// where the list is indexed, and so does what a map leaf refers to under a name that is
/// selected.
pub proof fn an_element_of_a_leaf_stays_a_leaf(
    e: Expression,
    l: crate::runtime::object::W_ListObject,
    c: Val,
    i: i64,
    w: std::sync::Arc<W_Root>,
    s: ScopeV,
    replies: Seq<ReplyV>,
    n: nat,
)
    requires
        calls(e, "_[_]"@, 2),
        takes(e, c, Val::Int(i), s, replies, n),
        !(c is Optional),
        eval_leaf(arg(e, 0), s, replies, n) == Some(W_Root::List(l)),
        l.strategy_of() == ListStrategy::Object,
        0 <= i < l.len_of(),
        l.slots_of()[i as int] == Some(w),
    ensures
        eval_leaf(e, s, replies, n) == Some(*w),
{
    every_operator_has_its_name(""@);
    reveal(held_index);
}

/// A field that is selected from a map leaf which holds references stays the leaf that it
/// is.
pub proof fn a_field_of_a_leaf_stays_a_leaf(
    e: Expression,
    sel: SelectExpr,
    m: crate::runtime::object::W_MapObject,
    c: Val,
    i: int,
    w: std::sync::Arc<W_Root>,
    s: ScopeV,
    replies: Seq<ReplyV>,
    n: nat,
)
    requires
        e.expr == Expr::Select(sel),
        !sel.test,
        eval(*sel.operand, s, replies, n).0 == EvalV::Done(c),
        eval_leaf(*sel.operand, s, replies, n) == Some(W_Root::CelMap(m)),
        m.strategy_of() == MapStrategy::Object,
        distinct_keys(map_leaf_view(m)),
        0 <= i < m.len_of(),
        map_leaf_view(m)[i].0 == Val::Str(sel.field@),
        m.slots_of()[2 * i + 1] == Some(w),
    ensures
        eval_leaf(e, s, replies, n) == Some(*w),
{
    reveal(held_index);
    lemma_position(map_leaf_view(m), Val::Str(sel.field@));
    assert(position(map_leaf_view(m), Val::Str(sel.field@)) == i);
}

} // verus!
