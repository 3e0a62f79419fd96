//! The runtime's leaves against the values that they stand for.

use crate::laws::equality::{exchanged, order_reverses};
use crate::model::{
    accepts, binary, compare, distinct_keys, index, iterated, native, negate, op_name,
    other_integer, position, BinOp, CmpOp, CoreType, ErrV, OutV, ReadError, TypeV, Val,
};
use crate::map::lemma_position;
use crate::runtime::binop::{
    leaf_arith, leaf_negate, leaf_order, order_code, LeafOutV, CMP_GREATER, CMP_LESS,
};
use crate::runtime::convert::{core_class, interned_at};
use crate::runtime::error::CelErrCode;
use crate::runtime::heap::{left, CelHeap};
use crate::runtime::interned::{
    held_index, held_items, is_read_in_place, op_named, raised_error, temporal_out,
};
use crate::runtime::object::{
    is_prebuilt, map_leaf_view, paired, place_of, prebuilt_number, read_class, read_pairs, read_ref,
    read_refs, read_root, ref_view, refs_view, CelClass, CelRef, ListStrategy, MapStrategy, Place,
    W_Root,
};
use crate::value::Value;
use vstd::prelude::*;

verus! {

/// The ordering operators answer and refuse on leaves as they do on values.
pub proof fn leaves_compare_as_values(op: CmpOp, a: Val, b: Val)
    ensures
        compare(op, a, b) == match leaf_order(a, b) {
            Some(o) => Ok::<Val, ErrV>(Val::Bool(accepts(op, o))),
            None => Err(ErrV::NoSuchOverload),
        },
{
}

/// Exchanging two leaves reverses the code of their order, and keeps the code of
/// leaves that have none.
pub proof fn codes_reverse(a: Val, b: Val)
    ensures
        leaf_order(b, a) == exchanged(leaf_order(a, b)),
        order_code(leaf_order(b, a)) == if order_code(leaf_order(a, b)) == CMP_LESS {
            CMP_GREATER
        } else if order_code(leaf_order(a, b)) == CMP_GREATER {
            CMP_LESS
        } else {
            order_code(leaf_order(a, b))
        },
{
    order_reverses(a, b);
}

/// Whether a value's nanoseconds, if it counts some, fit in a leaf. No leaf lies in a
/// leap second.
pub open spec fn fits_a_leaf(v: Val) -> bool {
    match v {
        Val::Duration(d) => i64::MIN <= d <= i64::MAX,
        Val::Timestamp(t) => i64::MIN <= t.nanos <= i64::MAX && !t.leap,
        _ => true,
    }
}

/// An operator on leaves gives the value that it gives on the values, hands over the
/// same doubles, and raises where it fails on the values; beyond that it raises an
/// overflow only where a count of nanoseconds does not fit in a leaf.
pub proof fn leaves_compute_as_values(op: BinOp, a: Val, b: Val)
    requires
        fits_a_leaf(a),
        fits_a_leaf(b),
    ensures
        match leaf_arith(op, a, b) {
            LeafOutV::Value(v) => native(op, a, b) == OutV::Done(Ok(v)) && fits_a_leaf(v),
            LeafOutV::Double(d, x, y) => native(op, a, b) == OutV::Double(d, x, y),
            LeafOutV::Raise(code, _) => match native(op, a, b) {
                OutV::Done(Err(_)) => true,
                OutV::Done(Ok(v)) => code == CelErrCode::Overflow && !fits_a_leaf(v),
                _ => false,
            },
        },
{
}

/// Unary minus on a leaf gives the value that it gives on the value.
pub proof fn leaves_negate_as_values(v: Val)
    requires
        fits_a_leaf(v),
    ensures
        match leaf_negate(v) {
            Ok(w) => negate(v) == Ok::<Val, ErrV>(w),
            Err(CelErrCode::Overflow) => negate(v) matches Ok(w) ==> !fits_a_leaf(w),
            Err(_) => negate(v) == Err::<Val, ErrV>(ErrV::NoSuchOverload),
        },
{
}

/// What the error that an operator on leaves raised stands for, given by its code,
/// the operator's name and the operands.
pub open spec fn outcome_of_raised(code: CelErrCode, op: Seq<char>, l: Val, r: Val) -> OutV {
    let plain = OutV::Done(Err(raised_error(code, op, l, r)));
    if code == CelErrCode::Overflow {
        match temporal_out(op, l, r) {
            Some(out) => out,
            None => plain,
        }
    } else {
        plain
    }
}

/// What an operator on two leaves comes to as part of an expression.
pub open spec fn outcome_on_leaves(op: BinOp, a: Val, b: Val) -> OutV {
    match leaf_arith(op, a, b) {
        LeafOutV::Value(v) => OutV::Done(Ok(v)),
        LeafOutV::Double(d, x, y) => OutV::Double(d, x, y),
        LeafOutV::Raise(code, swapped) => if swapped {
            outcome_of_raised(code, op_name(op), b, a)
        } else {
            outcome_of_raised(code, op_name(op), a, b)
        },
    }
}

proof fn lemma_op_names(op: BinOp)
    ensures
        op_named(op_name(op)) == Some(op),
        (op_name(op) == "add"@) == (op == BinOp::Add),
        (op_name(op) == "sub"@) == (op == BinOp::Sub),
        op_name(op) != "negate"@,
{
    reveal_strlit("add");
    reveal_strlit("sub");
    reveal_strlit("mul");
    reveal_strlit("div");
    reveal_strlit("rem");
    reveal_strlit("negate");
    assert("add"@[0] == 'a' && "sub"@[0] == 's' && "mul"@[0] == 'm' && "div"@[0] == 'd'
        && "rem"@[0] == 'r' && "negate"@[0] == 'n');
}

/// An expression comes to the same whether an operator is carried out on leaves or on
/// values: the same value, the same doubles handed over, and the same error.
pub proof fn expressions_compute_alike_on_leaves(op: BinOp, a: Val, b: Val)
    requires
        fits_a_leaf(a),
        fits_a_leaf(b),
    ensures
        outcome_on_leaves(op, a, b) == binary(op, a, b),
{
    lemma_op_names(op);
}

/// An expression comes to the same whether unary minus is carried out on a leaf or on
/// the value.
pub proof fn expressions_negate_alike_on_leaves(v: Val)
    requires
        fits_a_leaf(v),
    ensures
        OutV::Done(negate(v)) == match leaf_negate(v) {
            Ok(w) => OutV::Done(Ok(w)),
            Err(code) => outcome_of_raised(code, "negate"@, v, Val::Int(0)),
        },
{
}

/// Prebuilt integers are one object exactly when they are one number, and none of
/// them is a boolean or null.
pub proof fn prebuilt_integers_are_singletons(a: i64, b: i64)
    requires
        is_prebuilt(a),
        is_prebuilt(b),
    ensures
        (Place::Immortal(prebuilt_number(a) as u32) == Place::Immortal(prebuilt_number(b) as u32))
            == (a == b),
        prebuilt_number(a) > 2,
{
}

/// A class that is the class of a core type is that type's class, and the other way
/// round; the class of activation records, of int columns and of structs is the class
/// of no type.
pub proof fn classes_and_types_undo_each_other(c: CelClass, t: CoreType)
    ensures
        read_class(c) == Ok::<Val, ReadError>(Val::Type(TypeV::Core(t))) <==> c == core_class(t),
        read_class(c) is Err <==> c == CelClass::Frame || c == CelClass::IntColumn || c
            == CelClass::Struct,
        !(read_class(c) is Err) && !(read_class(c) matches Ok(Val::Type(TypeV::Core(_)))) ==> c
            == CelClass::Opaque,
{
}

/// Classes of different types are different.
pub proof fn different_classes_have_different_types(c: CelClass, d: CelClass)
    requires
        c != d,
        read_class(c) is Ok,
        read_class(d) is Ok,
    ensures
        read_class(c) != read_class(d),
{
}

/// What is interned while old space, or a region, is asked for outlives the evaluation:
/// it is not in the nursery, and when the outermost evaluation ends it is still alive.
/// A leaf that is handed in must be alive, or be prebuilt or a constant.
pub proof fn what_is_interned_into_old_space_outlives_the_evaluation(
    before: CelHeap,
    after: CelHeap,
    end: CelHeap,
    done: CelHeap,
    v: Value,
    x: CelRef,
)
    requires
        before.wf(),
        before.forced() > 0,
        interned_at(&before, &after, v, x),
        v matches Value::Interned(y) ==> before.live(place_of(*y)) || place_of(*y) is Immortal
            || place_of(*y) is Constant,
        forall|at: Place| after.live(at) ==> #[trigger] end.live(at),
        end.eval_depth_of() == 1,
        left(&end, &done),
    ensures
        x matches Some(w) && !(place_of(*w) is Young) && (done.live(place_of(*w)) || place_of(
            *w,
        ) is Immortal || place_of(*w) is Constant),
{
    assert forall|at: Place| !(at is Young) implies #[trigger] done.live(at) == end.live(at) by {}
}

/// Whether a list or map leaf has the references that it counts, as every leaf that is
/// made has.
pub open(crate) spec fn is_sound(w: W_Root) -> bool {
    match w {
        W_Root::List(l) => l.inv(),
        W_Root::CelMap(m) => m.inv() && (m.strategy == MapStrategy::Object ==> distinct_keys(
            map_leaf_view(m),
        )),
        _ => true,
    }
}

/// What is read back of references is what each is read back as.
proof fn lemma_refs_one_by_one(slots: Seq<CelRef>, n: nat)
    requires
        n <= slots.len(),
        read_refs(slots, 0, n) is Ok,
    ensures
        read_refs(slots, 0, n)->Ok_0.len() == n,
        forall|i: int|
            0 <= i < n ==> read_ref(#[trigger] slots[i]) == Ok::<Val, ReadError>(
                read_refs(slots, 0, n)->Ok_0[i],
            ),
    decreases n,
{
    if n > 0 {
        lemma_refs_one_by_one(slots, (n - 1) as nat);
    }
}

/// What is read back of pairs whose keys are distinct is what each pair is read back as.
proof fn lemma_pairs_one_by_one(slots: Seq<CelRef>, n: nat, m: nat)
    requires
        n <= m,
        2 * m <= slots.len(),
        read_pairs(slots, n, false) is Ok,
        distinct_keys(paired(refs_view(slots), m)),
    ensures
        ({
            let entries = read_pairs(slots, n, false)->Ok_0;
            let seen = paired(refs_view(slots), m);
            &&& entries.len() == n
            &&& forall|i: int|
                0 <= i < n ==> (#[trigger] entries[i]).0 == seen[i].0 && read_ref(slots[2 * i])
                    == Ok::<Val, ReadError>(entries[i].0) && read_ref(slots[2 * i + 1]) == Ok::<
                    Val,
                    ReadError,
                >(entries[i].1)
        }),
    decreases n,
{
    if n > 0 {
        lemma_pairs_one_by_one(slots, (n - 1) as nat, m);
        let before = read_pairs(slots, (n - 1) as nat, false)->Ok_0;
        let seen = paired(refs_view(slots), m);
        let k = read_ref(slots[2 * n - 2])->Ok_0;
        assert(seen[n - 1].0 == ref_view(slots[2 * n - 2]));
        assert(k == seen[n - 1].0);
        lemma_position(before, k);
        if position(before, k) >= 0 {
            let p = position(before, k);
            assert(seen[p].0 == seen[n - 1].0);
        }
    }
}

/// A key finds the same place among entries with the same keys.
proof fn lemma_same_places(a: Seq<(Val, Val)>, b: Seq<(Val, Val)>, k: Val)
    requires
        a.len() == b.len(),
        forall|i: int| 0 <= i < a.len() ==> (#[trigger] a[i]).0 == b[i].0,
    ensures
        position(a, k) == position(b, k),
{
    lemma_position(a, k);
    lemma_position(b, k);
    let p = position(a, k);
    let q = position(b, k);
    if p >= 0 {
        assert(a[p].0 == b[p].0);
        assert(q >= 0);
    }
    if q >= 0 {
        assert(a[q].0 == b[q].0);
        assert(p >= 0);
    }
}

/// Indexing a leaf in place gives what indexing the value that it is read back as gives,
/// and fails as that fails: an element is held as the leaf that it is, and is the same
/// value.
pub proof fn indexing_in_place_is_indexing_what_is_read_back(w: W_Root, k: Val)
    requires
        is_sound(w),
        read_root(w) is Ok,
    ensures
        match held_index(read_root(w)->Ok_0, Some(w), k) {
            Ok(h) => index(read_root(w)->Ok_0, k) == Ok::<Val, ErrV>(h.val),
            Err(e) => index(read_root(w)->Ok_0, k) == Err::<Val, ErrV>(e),
        },
{
    reveal(held_index);
    if is_read_in_place(w, k) {
        match w {
            W_Root::List(l) => {
                lemma_refs_one_by_one(l.items.slots@, l.length as nat);
            },
            W_Root::CelMap(m) => {
                let slots = m.items.slots@;
                let seen = map_leaf_view(m);
                let entries = read_root(w)->Ok_0->CelMap_0;
                lemma_pairs_one_by_one(slots, m.length as nat, m.length as nat);
                lemma_same_places(seen, entries, k);
                lemma_position(entries, k);
                let p = position(entries, k);
                if p >= 0 {
                    assert(entries[p].0 == seen[p].0);
                }
                match other_integer(k) {
                    Some(o) => {
                        lemma_same_places(seen, entries, o);
                        lemma_position(entries, o);
                        let q = position(entries, o);
                        if q >= 0 {
                            assert(entries[q].0 == seen[q].0);
                        }
                    },
                    None => {},
                }
            },
            _ => {},
        }
    }
}

/// A comprehension over a leaf binds, in turn, the values that it would bind over the
/// value that the leaf is read back as.
pub proof fn iterating_in_place_is_iterating_what_is_read_back(w: W_Root)
    requires
        is_sound(w),
        read_root(w) is Ok,
    ensures
        match held_items(read_root(w)->Ok_0, Some(w)) {
            Ok(items) => iterated(read_root(w)->Ok_0) == Ok::<Seq<Val>, ErrV>(
                Seq::new(items.len(), |i: int| items[i].val),
            ),
            Err(e) => iterated(read_root(w)->Ok_0) == Err::<Seq<Val>, ErrV>(e),
        },
{
    let v = read_root(w)->Ok_0;
    let items = held_items(v, Some(w))->Ok_0;
    match w {
        W_Root::List(l) if l.strategy == ListStrategy::Object => {
            lemma_refs_one_by_one(l.items.slots@, l.length as nat);
        },
        W_Root::CelMap(m) if m.strategy == MapStrategy::Object => {
            lemma_pairs_one_by_one(m.items.slots@, m.length as nat, m.length as nat);
            let entries = v->CelMap_0;
            assert forall|i: int| 0 <= i < entries.len() implies items[i].val == (
            #[trigger] entries[i]).0 by {}
        },
        _ => {},
    }
    if iterated(v) is Ok {
        assert(iterated(v)->Ok_0 =~= Seq::new(items.len(), |i: int| items[i].val));
    }
}

} // verus!
