//! Maps.

use crate::column::RecordSchema;
use crate::key::{key_view, map_get_by_key, AsKeyRef, Key, KeyRef};
use crate::list::{present, try_fill, written};
use crate::model::{
    distinct_keys, insert_all, insert_entry, is_key, lookup, lookup_numeric, other_integer,
    position, position_from, Val,
};
use crate::shared::same_arc;
use crate::value::{value_view, Value};
use std::sync::Arc;
use vstd::prelude::*;

verus! {

/// Tables this small are kept as [`MapStorage::Entries`]; larger ones are
/// [`MapStorage::Object`].
pub const ORDERED_SCAN_LIMIT: usize = 8;

/// The entries of a sequence of pairs.
pub open spec fn pairs_view(pairs: Seq<(Key, Value)>) -> Seq<(Val, Val)>
    decreases pairs,
{
    Seq::new(
        pairs.len(),
        |i: int|
            if 0 <= i < pairs.len() {
                (key_view(pairs[i].0), value_view(pairs[i].1))
            } else {
                arbitrary()
            },
    )
}

/// A table in which no key occurs twice, in the order the keys came.
#[derive(Debug)]
pub struct Table {
    pub(crate) pairs: Vec<(Key, Value)>,
}

/// The entries of a table.
pub open(crate) spec fn table_view(t: Table) -> Seq<(Val, Val)>
    decreases t,
{
    pairs_view(t.pairs@)
}

impl View for Table {
    type V = Seq<(Val, Val)>;

    open spec fn view(&self) -> Seq<(Val, Val)> {
        table_view(*self)
    }
}

impl Table {
    #[verifier::type_invariant]
    pub(crate) open spec fn inv(self) -> bool {
        distinct_keys(pairs_view(self.pairs@))
    }

    /// The empty table.
    pub fn new() -> (r: Table)
        ensures
            r@ == Seq::<(Val, Val)>::empty(),
    {
        let r = Table { pairs: Vec::new() };
        assert(r@ =~= Seq::<(Val, Val)>::empty());
        r
    }

    pub fn len(&self) -> (r: usize)
        ensures
            r == self@.len(),
    {
        self.pairs.len()
    }

    /// The place of a key.
    pub fn position(&self, key: KeyRef<'_>) -> (r: Option<usize>)
        ensures
            match r {
                Some(i) => i < self@.len() && position(self@, key@) == i,
                None => position(self@, key@) == -1,
            },
    {
        pairs_position(&self.pairs, key)
    }

    /// The value under exactly this key.
    pub fn get(&self, key: KeyRef<'_>) -> (r: Option<&Value>)
        ensures
            match r {
                Some(v) => lookup(self@, key@) == Some(v@),
                None => lookup(self@, key@) is None,
            },
    {
        match self.position(key) {
            Some(i) => Some(&self.pairs[i].1),
            None => None,
        }
    }

    /// Entry `i`.
    pub fn entry(&self, i: usize) -> (r: (&Key, &Value))
        requires
            i < self@.len(),
        ensures
            (r.0@, r.1@) == self@[i as int],
    {
        (&self.pairs[i].0, &self.pairs[i].1)
    }

    /// Store `value` under `key`. A key that is there keeps its place and takes the
    /// new value. Returns whether it was there.
    pub fn insert(&mut self, key: Key, value: Value) -> (r: bool)
        ensures
            final(self)@ == insert_entry(old(self)@, key@, value@),
            r == (position(old(self)@, key@) >= 0),
    {
        proof {
            use_type_invariant(&*self);
            lemma_position(self@, key@);
            lemma_insert_keeps_distinct(self@, key@, value@);
        }
        let at = pairs_position(&self.pairs, key.as_keyref());
        let ghost before = self@;
        let mut pairs: Vec<(Key, Value)> = Vec::new();
        std::mem::swap(&mut pairs, &mut self.pairs);
        match at {
            Some(i) => {
                let ghost was = pairs@;
                let ghost entry = (key, value);
                pairs[i] = (key, value);
                assert(pairs@ == was.update(i as int, entry));
                assert(pairs_view(pairs@) =~= insert_entry(before, key@, value@));
                self.pairs = pairs;
                true
            },
            None => {
                pairs.push((key, value));
                assert(pairs_view(pairs@) =~= insert_entry(before, key@, value@));
                self.pairs = pairs;
                false
            },
        }
    }

    /// A copy of the table. The values are shared.
    pub fn copy(&self) -> (r: Table)
        ensures
            r@ == self@,
    {
        proof {
            use_type_invariant(self);
        }
        let mut pairs: Vec<(Key, Value)> = Vec::new();
        let mut i: usize = 0;
        while i < self.pairs.len()
            invariant
                i <= self.pairs@.len(),
                pairs@ == self.pairs@.take(i as int),
            decreases self.pairs@.len() - i,
        {
            pairs.push((self.pairs[i].0.clone(), self.pairs[i].1.clone()));
            assert(pairs@ =~= self.pairs@.take(i + 1));
            i = i + 1;
        }
        assert(pairs@ =~= self.pairs@);
        Table { pairs }
    }
}

impl Default for Table {
    fn default() -> (r: Table)
        ensures
            r@ == Seq::<(Val, Val)>::empty(),
    {
        Table::new()
    }
}

/// The place of `key` among `pairs`.
fn pairs_position(pairs: &Vec<(Key, Value)>, key: KeyRef<'_>) -> (r: Option<usize>)
    ensures
        match r {
            Some(i) => i < pairs@.len() && position(pairs_view(pairs@), key@) == i,
            None => position(pairs_view(pairs@), key@) == -1,
        },
{
    let ghost m = pairs_view(pairs@);
    let mut i: usize = 0;
    while i < pairs.len()
        invariant
            i <= pairs@.len(),
            m == pairs_view(pairs@),
            position(m, key@) == position_from(m, key@, i as int),
        decreases pairs@.len() - i,
    {
        if pairs[i].0.as_keyref().same(key) {
            return Some(i);
        }
        i = i + 1;
    }
    None
}

/// What a position is: the first place where the key stands, or -1 if it stands
/// nowhere.
pub proof fn lemma_position_from(m: Seq<(Val, Val)>, k: Val, i: int)
    requires
        0 <= i <= m.len(),
    ensures
        ({
            let p = position_from(m, k, i);
            ||| p == -1 && forall|j: int| i <= j < m.len() ==> (#[trigger] m[j]).0 != k
            ||| i <= p < m.len() && m[p].0 == k && forall|j: int|
                i <= j < p ==> (#[trigger] m[j]).0 != k
        }),
    decreases m.len() - i,
{
    if i < m.len() && m[i].0 != k {
        lemma_position_from(m, k, i + 1);
    }
}

/// [`lemma_position_from`] from the start.
pub proof fn lemma_position(m: Seq<(Val, Val)>, k: Val)
    ensures
        ({
            let p = position(m, k);
            ||| p == -1 && forall|j: int| 0 <= j < m.len() ==> (#[trigger] m[j]).0 != k
            ||| 0 <= p < m.len() && m[p].0 == k && forall|j: int|
                0 <= j < p ==> (#[trigger] m[j]).0 != k
        }),
{
    lemma_position_from(m, k, 0);
}

/// Storing an entry keeps the keys distinct.
pub proof fn lemma_insert_keeps_distinct(m: Seq<(Val, Val)>, k: Val, v: Val)
    requires
        distinct_keys(m),
        is_key(k),
    ensures
        distinct_keys(insert_entry(m, k, v)),
{
    lemma_position(m, k);
    let r = insert_entry(m, k, v);
    assert forall|i: int, j: int|
        0 <= i < r.len() && 0 <= j < r.len() && (#[trigger] r[i]).0 == (#[trigger] r[j]).0 implies i
        == j by {
        if i < m.len() && j < m.len() {
            assert(m[i].0 == r[i].0 && m[j].0 == r[j].0);
        } else if i < m.len() {
            assert(m[i].0 == r[i].0);
        } else if j < m.len() {
            assert(m[j].0 == r[j].0);
        }
    }
}

/// Storing entries in turn leaves distinct keys, and no more entries than were
/// stored.
pub proof fn lemma_insert_all(pairs: Seq<(Val, Val)>)
    requires
        forall|i: int| 0 <= i < pairs.len() ==> is_key((#[trigger] pairs[i]).0),
    ensures
        distinct_keys(insert_all(pairs)),
        insert_all(pairs).len() <= pairs.len(),
    decreases pairs.len(),
{
    if pairs.len() > 0 {
        assert(forall|i: int|
            0 <= i < pairs.drop_last().len() ==> (#[trigger] pairs.drop_last()[i]) == pairs[i]);
        lemma_insert_all(pairs.drop_last());
        lemma_insert_keeps_distinct(
            insert_all(pairs.drop_last()),
            pairs.last().0,
            pairs.last().1,
        );
    }
}

/// Storing the entries of a table in turn gives the table back.
pub proof fn lemma_insert_all_distinct(m: Seq<(Val, Val)>)
    requires
        distinct_keys(m),
    ensures
        insert_all(m) == m,
    decreases m.len(),
{
    if m.len() > 0 {
        let init = m.drop_last();
        assert(forall|i: int| 0 <= i < init.len() ==> (#[trigger] init[i]) == m[i]);
        lemma_insert_all_distinct(init);
        lemma_position(init, m.last().0);
        assert(insert_all(m) =~= m);
    } else {
        assert(insert_all(m) =~= m);
    }
}

/// The table that storing `entries` in turn gives: a later pair whose key matches
/// an earlier one takes over that one's place.
fn compact_replace_on_insert(entries: Vec<(Key, Value)>) -> (r: Table)
    ensures
        r@ == insert_all(pairs_view(entries@)),
{
    let ghost all = pairs_view(entries@);
    let mut table = Table::new();
    let mut i: usize = 0;
    assert(all.take(0) =~= Seq::<(Val, Val)>::empty());
    while i < entries.len()
        invariant
            i <= entries@.len(),
            all == pairs_view(entries@),
            table@ == insert_all(all.take(i as int)),
        decreases entries@.len() - i,
    {
        let ghost step = all.take(i + 1);
        proof {
            assert(step.drop_last() =~= all.take(i as int));
            assert(step.last() == all[i as int]);
        }
        table.insert(entries[i].0.clone(), entries[i].1.clone());
        i = i + 1;
    }
    assert(all.take(i as int) =~= all);
    table
}

/// Entries in the order they came, few enough to scan.
#[derive(Debug)]
pub struct MapEntries {
    pub(crate) entries: Arc<Table>,
}

impl MapEntries {
    #[verifier::type_invariant]
    pub(crate) open spec fn inv(self) -> bool {
        table_view(*self.entries).len() <= ORDERED_SCAN_LIMIT
    }
}

/// How a map holds its entries.
#[derive(Debug)]
pub enum MapStorage {
    /// An owned table.
    Object(Arc<Table>),
    /// A small table.
    Entries(MapEntries),
    /// One row of a record batch.
    Record { schema: Arc<RecordSchema>, index: usize },
}

/// A map value.
#[derive(Debug)]
pub struct CelMap {
    pub(crate) storage: MapStorage,
}

/// The entries of a map.
pub open(crate) spec fn map_view(m: CelMap) -> Seq<(Val, Val)>
    decreases m,
{
    match m.storage {
        MapStorage::Object(t) => table_view(*t),
        MapStorage::Entries(e) => table_view(*e.entries),
        MapStorage::Record { schema, index } => schema.row(index as int),
    }
}

impl View for CelMap {
    type V = Seq<(Val, Val)>;

    open spec fn view(&self) -> Seq<(Val, Val)> {
        map_view(*self)
    }
}

impl Clone for MapEntries {
    fn clone(&self) -> (r: MapEntries)
        ensures
            r == *self,
    {
        proof {
            use_type_invariant(self);
        }
        MapEntries { entries: self.entries.clone() }
    }
}

impl Clone for CelMap {
    /// A reference count, not a copy of the table.
    fn clone(&self) -> (r: CelMap)
        ensures
            r == *self,
    {
        proof {
            use_type_invariant(self);
        }
        let storage = match &self.storage {
            MapStorage::Object(t) => MapStorage::Object(t.clone()),
            MapStorage::Entries(e) => MapStorage::Entries(e.clone()),
            MapStorage::Record { schema, index } => MapStorage::Record {
                schema: schema.clone(),
                index: *index,
            },
        };
        CelMap { storage }
    }
}

impl MapEntries {
    /// The entries, stored in turn.
    pub fn new(entries: Vec<(Key, Value)>) -> (r: MapEntries)
        requires
            entries@.len() <= ORDERED_SCAN_LIMIT,
        ensures
            r.spec_table() == insert_all(pairs_view(entries@)),
    {
        proof {
            lemma_insert_all(pairs_view(entries@));
        }
        MapEntries { entries: Arc::new(compact_replace_on_insert(entries)) }
    }

    /// What the entries are.
    pub open(crate) spec fn spec_table(&self) -> Seq<(Val, Val)> {
        table_view(*self.entries)
    }

    pub fn len(&self) -> (r: usize)
        ensures
            r == self.spec_table().len(),
    {
        self.entries.len()
    }
}

/// Whether two maps are stored in equal tables, or in rows of equal schemas.
pub open(crate) spec fn stored_alike(a: CelMap, b: CelMap) -> bool {
    match (a.storage, b.storage) {
        (MapStorage::Object(x), MapStorage::Object(y)) => x == y,
        (MapStorage::Entries(x), MapStorage::Entries(y)) => x.entries == y.entries,
        (MapStorage::Record { schema: x, .. }, MapStorage::Record { schema: y, .. }) => x == y,
        _ => false,
    }
}

/// Whether two maps are the same table or the same record row, given whether what they
/// are stored in is one allocation.
pub open spec fn same_map_given(a: CelMap, b: CelMap, same: bool) -> bool {
    match (a.spec_storage(), b.spec_storage()) {
        (MapStorage::Object(_), MapStorage::Object(_)) => same,
        (MapStorage::Entries(_), MapStorage::Entries(_)) => same,
        (
            MapStorage::Record { index: i, .. },
            MapStorage::Record { index: j, .. },
        ) => same && i == j,
        _ => false,
    }
}

impl CelMap {
    #[verifier::type_invariant]
    pub(crate) open spec fn inv(self) -> bool {
        match self.storage {
            MapStorage::Record { schema, index } => index < schema.row_count()
                && schema.row_readable(index as int),
            _ => true,
        }
    }

    /// How the map holds its entries.
    pub open(crate) spec fn spec_storage(&self) -> MapStorage {
        self.storage
    }

    /// A map over an owned table.
    pub fn object(table: Arc<Table>) -> (r: CelMap)
        ensures
            r@ == table@,
            r.spec_storage() == MapStorage::Object(table),
    {
        CelMap { storage: MapStorage::Object(table) }
    }

    /// A map over a small table.
    pub fn entries(entries: MapEntries) -> (r: CelMap)
        ensures
            r@ == entries.spec_table(),
            r.spec_storage() == MapStorage::Entries(entries),
    {
        CelMap { storage: MapStorage::Entries(entries) }
    }

    /// The entries, stored in turn. A table that is small enough is kept for
    /// scanning.
    pub fn ordered(entries: Vec<(Key, Value)>) -> (r: CelMap)
        ensures
            r@ == insert_all(pairs_view(entries@)),
            r.spec_storage() is Entries == (entries@.len() <= ORDERED_SCAN_LIMIT),
            r.spec_storage() is Object == (entries@.len() > ORDERED_SCAN_LIMIT),
    {
        if entries.len() <= ORDERED_SCAN_LIMIT {
            CelMap::entries(MapEntries::new(entries))
        } else {
            CelMap::object(Arc::new(compact_replace_on_insert(entries)))
        }
    }

    /// A map over a table that was filled from `n` sources. Where the sources are few
    /// the table is kept for scanning, however many of them it holds.
    pub fn filled(table: Table, n: usize) -> (r: CelMap)
        requires
            table@.len() <= n,
        ensures
            r@ == table@,
            r.spec_storage() is Entries == (n <= ORDERED_SCAN_LIMIT),
            r.spec_storage() is Object == (n > ORDERED_SCAN_LIMIT),
    {
        if n <= ORDERED_SCAN_LIMIT {
            CelMap::entries(MapEntries { entries: Arc::new(table) })
        } else {
            CelMap::object(Arc::new(table))
        }
    }

    /// Record `index` of `schema`, which costs a reference count.
    pub fn record(schema: Arc<RecordSchema>, index: usize) -> (r: CelMap)
        requires
            index < schema.row_count(),
            schema.row_readable(index as int),
        ensures
            r@ == schema.row(index as int),
            r.spec_storage() == (MapStorage::Record { schema, index }),
    {
        CelMap { storage: MapStorage::Record { schema, index } }
    }

    pub fn storage(&self) -> (r: &MapStorage)
        ensures
            *r == self.spec_storage(),
    {
        &self.storage
    }

    /// Whether both maps are the same table or the same record row, given whether what
    /// they are stored in is one allocation.
    pub fn ptr_eq_given(&self, other: &CelMap, same: bool) -> (r: bool)
        ensures
            r == same_map_given(*self, *other, same),
    {
        match (&self.storage, &other.storage) {
            (MapStorage::Object(_), MapStorage::Object(_)) => same,
            (MapStorage::Entries(_), MapStorage::Entries(_)) => same,
            (
                MapStorage::Record { index: ia, .. },
                MapStorage::Record { index: ib, .. },
            ) => same && *ia == *ib,
            _ => false,
        }
    }

    /// Whether both maps are the same table or the same record row. They then are
    /// stored alike and hold the same entries. Whether two tables or schemas are one
    /// allocation is what [`std::sync::Arc::ptr_eq`] says of them, and
    /// [`CelMap::ptr_eq_given`] is the answer for it.
    pub fn ptr_eq(&self, other: &CelMap) -> (r: bool)
        ensures
            exists|same: bool|
                (same ==> stored_alike(*self, *other)) && r == #[trigger] same_map_given(
                    *self,
                    *other,
                    same,
                ),
            r ==> self.spec_storage() == other.spec_storage() && self@ == other@,
    {
        let same = match (&self.storage, &other.storage) {
            (MapStorage::Object(a), MapStorage::Object(b)) => same_arc(a, b),
            (MapStorage::Entries(a), MapStorage::Entries(b)) => same_arc(&a.entries, &b.entries),
            (
                MapStorage::Record { schema: sa, .. },
                MapStorage::Record { schema: sb, .. },
            ) => same_arc(sa, sb),
            _ => false,
        };
        let r = self.ptr_eq_given(other, same);
        assert(r == same_map_given(*self, *other, same));
        r
    }

    pub fn len(&self) -> (r: usize)
        ensures
            r == self@.len(),
    {
        match &self.storage {
            MapStorage::Object(t) => t.len(),
            MapStorage::Entries(e) => e.len(),
            MapStorage::Record { schema, .. } => schema.field_count(),
        }
    }

    pub fn is_empty(&self) -> (r: bool)
        ensures
            r == (self@.len() == 0),
    {
        self.len() == 0
    }

    /// The place of a key among the entries.
    fn position(&self, key: KeyRef<'_>) -> (r: Option<usize>)
        ensures
            match r {
                Some(i) => i < self@.len() && position(self@, key@) == i,
                None => position(self@, key@) == -1,
            },
    {
        match &self.storage {
            MapStorage::Object(t) => t.position(key),
            MapStorage::Entries(e) => e.entries.position(key),
            MapStorage::Record { schema, index } => {
                proof {
                    lemma_position_by_keys(schema.row(0), schema.row(*index as int), key@, 0);
                }
                schema.position(key)
            },
        }
    }

    /// Whether exactly this key is there.
    pub fn contains_key<K: AsKeyRef>(&self, key: &K) -> (r: bool)
        ensures
            r == (lookup(self@, key.key_val()) is Some),
    {
        self.position(key.as_keyref()).is_some()
    }

    /// Entry `i`: the key is shared, the value boxed when the map does not hold it
    /// as one.
    pub fn entry(&self, i: usize) -> (r: Option<(Key, Value)>)
        ensures
            match r {
                Some((k, v)) => i < self@.len() && (k@, v@) == self@[i as int],
                None => i >= self@.len(),
            },
    {
        if i >= self.len() {
            return None;
        }
        proof {
            use_type_invariant(self);
        }
        match &self.storage {
            MapStorage::Object(t) => {
                let (k, v) = t.entry(i);
                Some((k.clone(), v.clone()))
            },
            MapStorage::Entries(e) => {
                let (k, v) = e.entries.entry(i);
                Some((k.clone(), v.clone()))
            },
            MapStorage::Record { schema, index } => Some(
                (schema.keys()[i].clone(), schema.field_at(i, *index)),
            ),
        }
    }

    /// The value under exactly this key.
    pub(crate) fn get_exact(&self, key: KeyRef<'_>) -> (r: Option<Value>)
        ensures
            match r {
                Some(v) => lookup(self@, key@) == Some(v@),
                None => lookup(self@, key@) is None,
            },
    {
        match self.position(key) {
            Some(i) => match self.entry(i) {
                Some((_, v)) => Some(v),
                None => None,
            },
            None => None,
        }
    }

    /// The value that the key finds: under the key itself, else under the same
    /// number as the other integer type.
    pub fn get<K: AsKeyRef>(&self, key: &K) -> (r: Option<Value>)
        ensures
            match r {
                Some(v) => lookup_numeric(self@, key.key_val()) == Some(v@),
                None => lookup_numeric(self@, key.key_val()) is None,
            },
    {
        let exact = |k: KeyRef<'_>| -> (found: Option<Value>)
            ensures
                match found {
                    Some(v) => lookup(self@, k@) == Some(v@),
                    None => lookup(self@, k@) is None,
                },
            { self.get_exact(k) };
        map_get_by_key(exact, key.as_keyref())
    }

    /// The entries as a table of their own.
    pub fn to_table(&self) -> (r: Table)
        ensures
            r@ == insert_all(self@),
    {
        let mut table = Table::new();
        let mut i: usize = 0;
        assert(self@.take(0) =~= Seq::<(Val, Val)>::empty());
        while i < self.len()
            invariant
                i <= self@.len(),
                table@ == insert_all(self@.take(i as int)),
            decreases self@.len() - i,
        {
            proof {
                let step = self@.take(i + 1);
                assert(step.drop_last() =~= self@.take(i as int));
                assert(step.last() == self@[i as int]);
            }
            if let Some((k, v)) = self.entry(i) {
                table.insert(k, v);
            }
            i = i + 1;
        }
        assert(self@.take(i as int) =~= self@);
        table
    }
}

/// A position depends on the keys alone.
proof fn lemma_position_by_keys(m: Seq<(Val, Val)>, n: Seq<(Val, Val)>, k: Val, i: int)
    requires
        m.len() == n.len(),
        forall|j: int| 0 <= j < m.len() ==> (#[trigger] m[j]).0 == n[j].0,
        0 <= i,
    ensures
        position_from(m, k, i) == position_from(n, k, i),
    decreases m.len() - i,
{
    if i < m.len() && m[i].0 != k {
        lemma_position_by_keys(m, n, k, i + 1);
    }
}

/// Build a map from what `write(0)` to `write(n - 1)` give, stored in turn. `None`
/// leaves an index out, and the first error is returned. What holds the entries goes
/// by `n`, whatever was left out.
pub fn try_build_map<E, F: Fn(usize) -> Result<Option<(Key, Value)>, E>>(n: usize, write: F) -> (r:
    Result<CelMap, E>)
    requires
        forall|i: usize| i < n ==> #[trigger] call_requires(write, (i,)),
    ensures
        match r {
            Ok(m) => exists|outs: Seq<Option<(Key, Value)>>|
                outs.len() == n && #[trigger] written(write, outs) && m@ == insert_all(
                    pairs_view(present(outs)),
                ) && m.spec_storage() is Entries == (n <= ORDERED_SCAN_LIMIT)
                    && m.spec_storage() is Object == (n > ORDERED_SCAN_LIMIT),
            Err(e) => exists|outs: Seq<Option<(Key, Value)>>|
                outs.len() < n && #[trigger] written(write, outs) && call_ensures(
                    write,
                    (outs.len() as usize,),
                    Err::<Option<(Key, Value)>, E>(e),
                ),
        },
{
    match try_fill(n, write) {
        Ok(pairs) => {
            proof {
                lemma_insert_all(pairs_view(pairs@));
            }
            Ok(CelMap::filled(compact_replace_on_insert(pairs), n))
        },
        Err(e) => Err(e),
    }
}

/// What is stored under a key is what indexing finds there, and nothing changes
/// under any other key.
pub proof fn lookup_after_insert(m: Seq<(Val, Val)>, k: Val, v: Val, other: Val)
    ensures
        lookup(insert_entry(m, k, v), other) == if other == k {
            Some(v)
        } else {
            lookup(m, other)
        },
{
    let r = insert_entry(m, k, v);
    lemma_position(m, k);
    lemma_position(m, other);
    lemma_position(r, other);
    let p = position(m, other);
    let q = position(r, other);
    if other == k {
        let at = position(m, k);
        if 0 <= at < m.len() {
            assert(r[at].0 == k);
            if q != at {
                if 0 <= q < at {
                    assert(m[q].0 == r[q].0);
                } else {
                    assert(r[at].0 == other);
                }
            }
        } else {
            assert(r[m.len() as int].0 == k);
            if 0 <= q < m.len() {
                assert(m[q].0 == r[q].0);
            }
        }
    } else {
        assert forall|j: int| 0 <= j < m.len() implies (#[trigger] m[j]).0 == r[j].0 by {}
        if p >= 0 {
            assert(r[p].0 == other);
            if q != p {
                if 0 <= q < p {
                    assert(m[q].0 == r[q].0);
                } else {
                    assert(false);
                }
            }
        } else if q >= 0 {
            if q < m.len() {
                assert(m[q].0 == r[q].0);
            } else {
                assert(r[q].0 == k);
            }
        }
    }
}

/// Storing under a key that is there keeps the keys, their places and the number
/// of entries; storing under a new one adds an entry at the end.
pub proof fn insert_keeps_order(m: Seq<(Val, Val)>, k: Val, v: Val)
    ensures
        insert_entry(m, k, v).len() == if lookup(m, k) is Some {
            m.len()
        } else {
            m.len() + 1
        },
        forall|i: int| 0 <= i < m.len() ==> (#[trigger] insert_entry(m, k, v)[i]).0 == m[i].0,
        lookup(m, k) is None ==> insert_entry(m, k, v).last() == (k, v),
{
    lemma_position(m, k);
}

/// An exact key is found before the same number as the other integer type, and
/// the second look is taken only where the first finds nothing.
pub proof fn numeric_lookup_prefers_the_exact_key(m: Seq<(Val, Val)>, k: Val)
    ensures
        lookup(m, k) is Some ==> lookup_numeric(m, k) == lookup(m, k),
        lookup(m, k) is None ==> match other_integer(k) {
            Some(o) => lookup_numeric(m, k) == lookup(m, o),
            None => lookup_numeric(m, k) is None,
        },
{
}

} // verus!
