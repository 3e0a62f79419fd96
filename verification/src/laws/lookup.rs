//! Indexing, membership and iteration.

use crate::access::has_field;
use crate::laws::equality::{equality_is_reflexive, equals_itself, maps_are_valid};
use crate::map::lemma_position;
use crate::model::{
    binary, contains, distinct_keys, field, index, iterated, list_index, position, val_len, BinOp,
    ErrV, OutV, Val,
};
use vstd::prelude::*;

verus! {

/// What is in a map can be indexed. The converse fails for a number that is a key
/// only as the other integer type.
pub proof fn a_member_can_be_indexed(m: Seq<(Val, Val)>, k: Val)
    ensures
        contains(Val::CelMap(m), k) == Ok::<bool, ErrV>(true) ==> index(Val::CelMap(m), k) is Ok,
        k is Str || k is Bool ==> contains(Val::CelMap(m), k) == Ok::<bool, ErrV>(
            index(Val::CelMap(m), k) is Ok,
        ),
{
}

/// Iterating over a map gives its keys: each is in the map, once, and indexing by it
/// gives the value of its entry.
pub proof fn iteration_gives_the_keys(m: Seq<(Val, Val)>, i: int)
    requires
        distinct_keys(m),
        0 <= i < m.len(),
    ensures
        iterated(Val::CelMap(m)) matches Ok(keys) && {
            &&& keys.len() == m.len()
            &&& keys.no_duplicates()
            &&& contains(Val::CelMap(m), keys[i]) == Ok::<bool, ErrV>(true)
            &&& index(Val::CelMap(m), keys[i]) == Ok::<Val, ErrV>(m[i].1)
        },
{
    lemma_position(m, m[i].0);
    assert(position(m, m[i].0) == i);
    let keys = iterated(Val::CelMap(m))->Ok_0;
    assert forall|a: int, b: int| 0 <= a < keys.len() && 0 <= b < keys.len() && a
        != b implies keys[a] != keys[b] by {
        assert(keys[a] == m[a].0 && keys[b] == m[b].0);
    }
}

/// Iterating over a list gives its elements: each is what indexing finds, and each
/// that equals itself is in the list.
pub proof fn iteration_gives_the_elements(items: Seq<Val>, i: i64)
    requires
        0 <= i < items.len(),
        maps_are_valid(items[i as int]),
    ensures
        iterated(Val::List(items)) == Ok::<Seq<Val>, ErrV>(items),
        index(Val::List(items), Val::Int(i)) == Ok::<Val, ErrV>(items[i as int]),
        index(Val::List(items), Val::UInt(i as u64)) == Ok::<Val, ErrV>(items[i as int]),
        equals_itself(items[i as int]) ==> contains(Val::List(items), items[i as int]) == Ok::<
            bool,
            ErrV,
        >(true),
{
    equality_is_reflexive(items[i as int]);
}

/// The number of things to iterate over is the size.
pub proof fn iteration_is_as_long_as_the_size(v: Val)
    ensures
        iterated(v) matches Ok(items) ==> val_len(v) == Some(items.len() as int),
{
}

/// `has(c.f)` is whether `c.f` gives a value, on a map and on a struct.
pub proof fn has_says_whether_the_field_is_there(c: Val, name: Seq<char>)
    requires
        c is CelMap || c is Struct,
    ensures
        has_field(c, name) == Ok::<Val, ErrV>(Val::Bool(field(c, name) is Ok)),
{
}

/// Indexing a concatenation finds the elements of the first list, and then those of
/// the second.
pub proof fn indexing_a_concatenation(x: Seq<Val>, y: Seq<Val>, i: i64)
    requires
        0 <= i,
    ensures
        binary(BinOp::Add, Val::List(x), Val::List(y)) matches OutV::Done(Ok(Val::List(z))) && {
            &&& i < x.len() ==> list_index(z, Val::Int(i)) == list_index(x, Val::Int(i))
            &&& x.len() <= i < x.len() + y.len() ==> list_index(z, Val::Int(i)) == list_index(
                y,
                Val::Int((i - x.len()) as i64),
            )
            &&& x.len() + y.len() <= i ==> list_index(z, Val::Int(i)) == Err::<Val, ErrV>(
                ErrV::IndexOutOfBounds(Val::Int(i)),
            )
        },
{
}

/// A value is a member of a concatenation exactly when it is one of either list.
pub proof fn members_of_a_concatenation(x: Seq<Val>, y: Seq<Val>, k: Val)
    ensures
        contains(Val::List(x + y), k) == Ok::<bool, ErrV>(
            contains(Val::List(x), k) == Ok::<bool, ErrV>(true) || contains(Val::List(y), k) == Ok::<
                bool,
                ErrV,
            >(true),
        ),
{
    let z = x + y;
    assert forall|i: int| 0 <= i < x.len() implies z[i] == #[trigger] x[i] by {}
    assert forall|i: int| 0 <= i < y.len() implies z[x.len() + i] == #[trigger] y[i] by {}
    assert forall|i: int| 0 <= i < z.len() implies (#[trigger] z[i]) == if i < x.len() {
        x[i]
    } else {
        y[i - x.len()]
    } by {}
}

} // verus!
