//! Tables, maps, lists, structs and variables, by what was put into them.

use crate::context::{Bindings, Context, Scope};
use crate::key::{Key, KeyRef};
use crate::laws::members::{are_one_number, has_key};
use crate::list::{ListRef, ListStorage};
use crate::map::{lemma_position, lookup_after_insert, CelMap, MapEntries, MapStorage, Table};
use crate::model::{lookup, position, Val};
use crate::value::{held, struct_view, CelStruct, Value};
use std::sync::Arc;
use vstd::prelude::*;

verus! {

/// A new table is empty.
pub proof fn a_new_table_is_empty(t: Table, n: usize)
    requires
        call_ensures(Table::new, (), t),
        call_ensures(Table::len, (&t,), n),
    ensures
        n == 0,
        t@.len() == 0,
{
}

/// What is stored in a table under a key is found under it, and what is found under any
/// other key is what was found before. The table grows by one where the key was not there,
/// and says whether it was.
pub proof fn a_table_finds_what_was_stored(
    t: &mut Table,
    k: Key,
    v: Value,
    was: bool,
    q: KeyRef<'_>,
    before: Option<&Value>,
    after: Option<&Value>,
)
    requires
        call_ensures(Table::insert, (t, k, v), was),
        call_ensures(Table::get, (&*old(t), q), before),
        call_ensures(Table::get, (&*final(t), q), after),
    ensures
        q@ == k@ ==> (after matches Some(x) && x@ == v@),
        q@ != k@ ==> (before is Some <==> after is Some),
        q@ != k@ && before is Some ==> before->0@ == after->0@,
        was == has_key(old(t)@, k@),
        final(t)@.len() == old(t)@.len() + if was {
            0int
        } else {
            1
        },
{
    lookup_after_insert(old(t)@, k@, v@, q@);
    lemma_position(old(t)@, k@);
    let p = position(old(t)@, k@);
    if p >= 0 {
        assert(old(t)@[p].0 == k@);
    }
}

/// Storing in a table leaves every entry where it stands; a new one comes last.
pub proof fn a_table_keeps_its_order(t: &mut Table, k: Key, v: Value, was: bool, i: int)
    requires
        call_ensures(Table::insert, (t, k, v), was),
        0 <= i < old(t)@.len(),
    ensures
        final(t)@[i].0 == old(t)@[i].0,
        old(t)@[i].0 != k@ ==> final(t)@[i].1 == old(t)@[i].1,
        !was ==> final(t)@.last() == (k@, v@),
{
    lemma_position(old(t)@, k@);
}

/// A table finds the entry that stands at a place, and the place by its key.
pub proof fn a_table_finds_its_entries(
    t: Table,
    q: KeyRef<'_>,
    at: Option<usize>,
    found: Option<&Value>,
    copy: Table,
)
    requires
        call_ensures(Table::position, (&t, q), at),
        call_ensures(Table::get, (&t, q), found),
        call_ensures(Table::copy, (&t,), copy),
    ensures
        at matches Some(i) ==> i < t@.len() && t@[i as int].0 == q@ && (found matches Some(v) && v@
            == t@[i as int].1),
        at is None ==> !has_key(t@, q@) && found is None,
        copy@ == t@,
{
    lemma_position(t@, q@);
}

/// A map that is made of entries has the last value of each key and no other key. It is
/// kept for scanning where there are at most eight of them.
pub proof fn a_map_is_made_of_entries(
    entries: Vec<(Key, Value)>,
    m: CelMap,
    k: Key,
    there: bool,
    found: Option<Value>,
)
    requires
        call_ensures(CelMap::ordered, (entries,), m),
        call_ensures(CelMap::contains_key::<Key>, (&m, &k), there),
        call_ensures(CelMap::get::<Key>, (&m, &k), found),
    ensures
        there <==> exists|i: int| 0 <= i < entries@.len() && (#[trigger] entries@[i]).0@ == k@,
        forall|i: int|
            0 <= i < entries@.len() && (#[trigger] entries@[i]).0@ == k@ && (forall|j: int|
                i < j < entries@.len() ==> (#[trigger] entries@[j]).0@ != k@) ==> (
            found matches Some(v) && v@ == entries@[i].1@),
        m.spec_storage() is Entries <==> entries@.len() <= 8,
        m.spec_storage() is Object <==> entries@.len() > 8,
{
    let pairs = crate::map::pairs_view(entries@);
    lemma_last_wins(pairs, k@);
    assert forall|i: int| 0 <= i < pairs.len() implies (#[trigger] pairs[i]) == (
        entries@[i].0@,
        entries@[i].1@,
    ) by {}
    if there {
        let i = choose|i: int| 0 <= i < pairs.len() && (#[trigger] pairs[i]).0 == k@;
        assert(entries@[i].0@ == k@);
    }
    assert forall|i: int|
        0 <= i < entries@.len() && (#[trigger] entries@[i]).0@ == k@ && (forall|j: int|
            i < j < entries@.len() ==> (#[trigger] entries@[j]).0@ != k@) implies (
    found matches Some(v) && v@ == entries@[i].1@) by {
        assert(pairs[i].0 == k@);
        assert forall|j: int| i < j < pairs.len() implies (#[trigger] pairs[j]).0 != k@ by {
            assert(entries@[j].0@ != k@);
        }
    }
    if exists|i: int| 0 <= i < entries@.len() && (#[trigger] entries@[i]).0@ == k@ {
        let i = choose|i: int| 0 <= i < entries@.len() && (#[trigger] entries@[i]).0@ == k@;
        assert(pairs[i].0 == k@);
    }
}

proof fn lemma_last_wins(pairs: Seq<(Val, Val)>, k: Val)
    ensures
        lookup(crate::model::insert_all(pairs), k) is Some <==> exists|i: int|
            0 <= i < pairs.len() && (#[trigger] pairs[i]).0 == k,
        forall|i: int|
            0 <= i < pairs.len() && (#[trigger] pairs[i]).0 == k && (forall|j: int|
                i < j < pairs.len() ==> (#[trigger] pairs[j]).0 != k) ==> lookup(
                crate::model::insert_all(pairs),
                k,
            ) == Some(pairs[i].1),
    decreases pairs.len(),
{
    let all = crate::model::insert_all(pairs);
    if pairs.len() == 0 {
        lemma_position(all, k);
    } else {
        let before = pairs.drop_last();
        let last = pairs.last();
        lemma_last_wins(before, k);
        lookup_after_insert(crate::model::insert_all(before), last.0, last.1, k);
        assert forall|i: int| 0 <= i < before.len() implies (#[trigger] before[i]) == pairs[i] by {}
        if last.0 == k {
            assert(pairs[pairs.len() - 1].0 == k);
        } else {
            if exists|i: int| 0 <= i < pairs.len() && (#[trigger] pairs[i]).0 == k {
                let i = choose|i: int| 0 <= i < pairs.len() && (#[trigger] pairs[i]).0 == k;
                assert(i < before.len());
                assert(before[i].0 == k);
            }
            if exists|i: int| 0 <= i < before.len() && (#[trigger] before[i]).0 == k {
                let i = choose|i: int| 0 <= i < before.len() && (#[trigger] before[i]).0 == k;
                assert(pairs[i].0 == k);
            }
        }
        assert forall|i: int|
            0 <= i < pairs.len() && (#[trigger] pairs[i]).0 == k && (forall|j: int|
                i < j < pairs.len() ==> (#[trigger] pairs[j]).0 != k) implies lookup(all, k) == Some(
            pairs[i].1,
        ) by {
            if i < before.len() {
                assert(pairs[pairs.len() - 1].0 != k);
                assert(before[i].0 == k);
                assert forall|j: int| i < j < before.len() implies (#[trigger] before[j]).0
                    != k by {
                    assert(pairs[j].0 != k);
                }
            }
        }
    }
}

/// A map over a table, or over a few entries, has these and no others; a map is empty
/// where it has none.
pub proof fn a_map_has_the_entries_of_its_table(
    table: Arc<Table>,
    entries: MapEntries,
    m: CelMap,
    e: CelMap,
    n: usize,
    empty: bool,
)
    requires
        call_ensures(CelMap::object, (table,), m),
        call_ensures(CelMap::entries, (entries,), e),
        call_ensures(CelMap::len, (&m,), n),
        call_ensures(CelMap::is_empty, (&m,), empty),
    ensures
        m@ == table@,
        e@ == entries.spec_table(),
        n == table@.len(),
        empty <==> n == 0,
{
}

/// What a map finds under a key stands there under that key or, where it does not, under
/// the same number of the other integer type; it finds nothing else.
pub proof fn a_map_finds_by_key_or_by_number(
    m: CelMap,
    k: Key,
    found: Option<Value>,
    there: bool,
)
    requires
        call_ensures(CelMap::get::<Key>, (&m, &k), found),
        call_ensures(CelMap::contains_key::<Key>, (&m, &k), there),
    ensures
        there <==> has_key(m@, k@),
        found matches Some(v) ==> exists|i: int|
            0 <= i < m@.len() && (#[trigger] m@[i]).1 == v@ && (m@[i].0 == k@ || are_one_number(
                m@[i].0,
                k@,
            ) && !has_key(m@, k@)),
        found is None ==> forall|i: int|
            0 <= i < m@.len() ==> (#[trigger] m@[i]).0 != k@ && !are_one_number(m@[i].0, k@),
{
    lemma_position(m@, k@);
    let p = position(m@, k@);
    if p >= 0 {
        assert(m@[p].0 == k@);
    } else {
        match crate::model::other_integer(k@) {
            Some(o) => {
                lemma_position(m@, o);
                let q = position(m@, o);
                if q >= 0 {
                    assert(m@[q].0 == o);
                    assert(are_one_number(m@[q].0, k@));
                }
                assert forall|i: int| 0 <= i < m@.len() && are_one_number(
                    (#[trigger] m@[i]).0,
                    k@,
                ) implies m@[i].0 == o by {}
            },
            None => {},
        }
    }
}

/// A struct has the fields that were put into it, each with the last value of its name.
pub proof fn a_struct_has_its_fields(
    s: &mut CelStruct,
    name: String,
    v: Value,
    q: &str,
    before: Option<&Value>,
    after: Option<&Value>,
)
    requires
        call_ensures(CelStruct::add_field_value, (s, name, v), ()),
        call_ensures(CelStruct::field_value, (&*old(s), q), before),
        call_ensures(CelStruct::field_value, (&*final(s), q), after),
    ensures
        q@ == name@ ==> (after matches Some(x) && x@ == v@),
        q@ != name@ ==> (before is Some <==> after is Some),
        q@ != name@ && before is Some ==> before->0@ == after->0@,
        struct_view(*final(s))->Struct_0 == struct_view(*old(s))->Struct_0,
{
    let f = struct_view(*old(s))->Struct_1;
    lookup_after_insert(f, Val::Str(name@), v@, Val::Str(q@));
}

/// A new struct has its name and no fields.
pub proof fn a_new_struct_has_no_fields(name: String, s: CelStruct, n: &String, q: &str, f: Option<&Value>)
    requires
        call_ensures(CelStruct::new, (name,), s),
        call_ensures(CelStruct::name, (&s,), n),
        call_ensures(CelStruct::field_value, (&s, q), f),
    ensures
        n@ == name@,
        f is None,
{
    lemma_position(Seq::<(Val, Val)>::empty(), Val::Str(q@));
}

/// A variable that was bound is what it was bound to, and every other one is what it was;
/// no variable is bound before.
pub proof fn a_variable_is_what_it_was_bound_to(
    b: &mut Bindings,
    name: &str,
    v: Value,
    q: &str,
    before: Option<Value>,
    after: Option<Value>,
    none: Bindings,
    nothing: Option<Value>,
)
    requires
        call_ensures(Bindings::bind, (b, name, v), ()),
        call_ensures(Bindings::get, (&*old(b), q), before),
        call_ensures(Bindings::get, (&*final(b), q), after),
        call_ensures(Bindings::new, (), none),
        call_ensures(Bindings::get, (&none, q), nothing),
    ensures
        q@ == name@ ==> after == Some(v),
        q@ != name@ ==> after == before,
        nothing is None,
{
}

/// The variables of a program are those that were added to it, held as they were, and the
/// scope that its expressions are evaluated in has them.
pub proof fn a_program_has_its_variables(
    ctx: &mut Context,
    name: &str,
    v: Value,
    scope: Scope<'_>,
    q: &str,
    loaded: Option<Value>,
)
    requires
        call_ensures(Context::add_variable_from_value, (ctx, name, v), ()),
        call_ensures(Scope::root, (&*final(ctx),), scope),
        call_ensures(Scope::load_ident, (&scope, q), loaded),
    ensures
        q@ == name@ ==> (loaded matches Some(x) && x@ == v@ && held(x) == held(v)),
        q@ != name@ ==> (loaded is Some <==> old(ctx).variables@.dom().contains(q@)),
        q@ != name@ && loaded is Some ==> loaded->0@ == old(ctx).variables@[q@],
{
}

/// A name that a comprehension binds is what it was bound to, and hides the program's
/// variable of that name; an inner scope has the same names.
pub proof fn a_scope_has_what_was_bound_in_it(
    scope: &mut Scope<'_>,
    name: &str,
    v: Value,
    inner: Scope<'_>,
    q: &str,
    loaded: Option<Value>,
    before: Option<Value>,
    local: bool,
)
    requires
        call_ensures(Scope::rebind, (scope, name, v), ()),
        call_ensures(Scope::load_ident, (&*old(scope), q), before),
        call_ensures(Scope::new_inner_scope, (&*final(scope),), inner),
        call_ensures(Scope::load_ident, (&inner, q), loaded),
        call_ensures(Scope::is_comprehension_variable, (&inner, q), local),
    ensures
        q@ == name@ ==> local && (loaded matches Some(x) && x@ == v@ && held(x) == held(v)),
        q@ != name@ ==> (loaded is Some <==> before is Some),
        q@ != name@ && loaded is Some ==> loaded->0@ == before->0@ && held(loaded->0) == held(
            before->0,
        ),
{
}

/// A list over values has these, and one over integers these; the whole of a buffer is all
/// its elements and a window is some of them.
pub proof fn a_list_has_the_elements_of_its_buffer(
    values: Vec<Value>,
    ints: Vec<i64>,
    storage: Arc<ListStorage>,
    start: usize,
    len: usize,
    a: ListRef,
    b: ListRef,
    whole: ListRef,
    window: ListRef,
)
    requires
        call_ensures(ListRef::from_vec, (values,), a),
        call_ensures(ListRef::from_ints, (ints,), b),
        call_ensures(ListRef::whole, (storage,), whole),
        call_ensures(ListRef::window, (storage, start, len), window),
        start + len <= crate::list::storage_view(*storage).len(),
    ensures
        a@.len() == values@.len() && forall|i: int|
            0 <= i < values@.len() ==> #[trigger] a@[i] == values@[i]@,
        b@.len() == ints@.len() && forall|i: int|
            0 <= i < ints@.len() ==> #[trigger] b@[i] == Val::Int(ints@[i]),
        whole@ == crate::list::storage_view(*storage),
        window@.len() == len && forall|i: int|
            0 <= i < len ==> #[trigger] window@[i] == whole@[start + i],
{
}

/// The elements of a list, as values, are its elements.
pub proof fn a_list_gives_its_elements(l: ListRef, vs: Vec<Value>, ws: Vec<Value>, n: usize, empty: bool)
    requires
        call_ensures(ListRef::to_vec, (&l,), vs),
        call_ensures(ListRef::into_vec, (l,), ws),
        call_ensures(ListRef::len, (&l,), n),
        call_ensures(ListRef::is_empty, (&l,), empty),
    ensures
        n == l@.len() && vs@.len() == n && ws@.len() == n,
        forall|i: int| 0 <= i < n ==> (#[trigger] vs@[i])@ == l@[i],
        forall|i: int| 0 <= i < n ==> (#[trigger] ws@[i])@ == l@[i],
        empty <==> n == 0,
{
    assert(crate::list::values_view(vs@).len() == vs@.len());
    assert(crate::list::values_view(ws@).len() == ws@.len());
    assert forall|i: int| 0 <= i < n implies (#[trigger] vs@[i])@ == l@[i] by {
        assert(crate::list::values_view(vs@)[i] == vs@[i]@);
    }
    assert forall|i: int| 0 <= i < n implies (#[trigger] ws@[i])@ == l@[i] by {
        assert(crate::list::values_view(ws@)[i] == ws@[i]@);
    }
}

/// Two lists are the same window only over one buffer, or over two empty ones that each was
/// made for its list; then they have the same elements.
pub proof fn lists_that_are_one_window_have_the_same_elements(
    a: ListRef,
    b: ListRef,
    same: bool,
    one: bool,
    other: bool,
    shared: bool,
)
    requires
        call_ensures(ListRef::ptr_eq, (&a, &b), one),
        call_ensures(ListRef::ptr_eq_given, (&a, &b, same), other),
        call_ensures(ListRef::shares_storage_given, (&a, &b, same), shared),
    ensures
        one ==> a@ == b@,
        other ==> shared && a@.len() == b@.len() && a.offset() == b.offset(),
        shared && !same ==> a@.len() == 0 || b@.len() == 0 || crate::list::storage_view(
            a.buffer(),
        ).len() == 0,
        a.over_shared() != b.over_shared() ==> !shared,
        same && a.over_shared() == b.over_shared() ==> shared,
{
}

/// Two maps that are one table, or one row, are of one storage.
pub proof fn maps_that_are_one_are_stored_alike(a: CelMap, b: CelMap, same: bool, one: bool)
    requires
        call_ensures(CelMap::ptr_eq_given, (&a, &b, same), one),
    ensures
        one ==> same,
        one ==> match (a.spec_storage(), b.spec_storage()) {
            (MapStorage::Object(_), MapStorage::Object(_)) => true,
            (MapStorage::Entries(_), MapStorage::Entries(_)) => true,
            (
                MapStorage::Record { index: i, .. },
                MapStorage::Record { index: j, .. },
            ) => i == j,
            _ => false,
        },
        same && a.spec_storage() is Object && b.spec_storage() is Object ==> one,
        same && a.spec_storage() is Entries && b.spec_storage() is Entries ==> one,
{
}

} // verus!
