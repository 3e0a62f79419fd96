//! Lists: a window over a shared buffer.

use crate::column::{RecordSchema, ValueColumn};
use crate::map::CelMap;
use crate::model::Val;
use crate::runtime::object::W_Root;
use crate::shared::same_arc;
use crate::value::{value_view, Value};
use std::sync::Arc;
use vstd::prelude::*;

verus! {

/// How a list holds its elements.
#[derive(Debug)]
pub enum ListStorage {
    /// Values.
    Object(Vec<Value>),
    /// Integers, unboxed.
    Ints(Vec<i64>),
    /// One column of a batch.
    Column(ValueColumn),
    /// The rows of a record batch.
    Record(Arc<RecordSchema>),
}

/// The values of a sequence of `Value`s.
pub open spec fn values_view(items: Seq<Value>) -> Seq<Val>
    decreases items,
{
    Seq::new(
        items.len(),
        |i: int|
            if 0 <= i < items.len() {
                value_view(items[i])
            } else {
                arbitrary()
            },
    )
}

/// The values of a sequence of integers.
pub open spec fn ints_view(items: Seq<i64>) -> Seq<Val> {
    Seq::new(items.len(), |i: int| Val::Int(items[i]))
}

/// The elements of a buffer.
pub open spec fn storage_view(s: ListStorage) -> Seq<Val>
    decreases s,
{
    match s {
        ListStorage::Object(items) => values_view(items@),
        ListStorage::Ints(items) => ints_view(items@),
        ListStorage::Column(c) => c@,
        ListStorage::Record(schema) => Seq::new(
            schema.row_count(),
            |i: int| Val::CelMap(schema.row(i)),
        ),
    }
}

/// Whether a buffer can be read at `i`.
pub open spec fn storage_readable(s: ListStorage, i: int) -> bool {
    match s {
        ListStorage::Object(_) | ListStorage::Ints(_) => true,
        ListStorage::Column(c) => c.readable(i),
        ListStorage::Record(schema) => schema.row_readable(i),
    }
}

/// A list value: `len` elements of a shared buffer from `start` on.
#[derive(Debug)]
pub struct ListRef {
    pub(crate) buf: Arc<ListStorage>,
    pub(crate) start: usize,
    pub(crate) len: usize,
    /// The buffer came in as a shared one, rather than being built for this list.
    pub(crate) shared: bool,
}

/// The elements of a list.
pub open(crate) spec fn list_view(l: ListRef) -> Seq<Val>
    decreases l,
{
    storage_view(*l.buf).subrange(l.start as int, l.start + l.len)
}

impl View for ListRef {
    type V = Seq<Val>;

    open spec fn view(&self) -> Seq<Val> {
        list_view(*self)
    }
}

impl Clone for ListRef {
    /// A reference count, not a copy of the buffer.
    fn clone(&self) -> (r: ListRef)
        ensures
            r == *self,
    {
        proof {
            use_type_invariant(self);
        }
        ListRef {
            buf: self.buf.clone(),
            start: self.start,
            len: self.len,
            shared: self.shared,
        }
    }
}

impl ListStorage {
    /// The number of elements.
    pub fn len(&self) -> (r: usize)
        ensures
            r == storage_view(*self).len(),
    {
        match self {
            ListStorage::Object(v) => v.len(),
            ListStorage::Ints(v) => v.len(),
            ListStorage::Column(c) => c.len(),
            ListStorage::Record(s) => s.rows(),
        }
    }

    pub fn is_empty(&self) -> (r: bool)
        ensures
            r == (storage_view(*self).len() == 0),
    {
        self.len() == 0
    }

    /// Whether a list can hold the element at `index`: it is there, and it can be read.
    pub fn can_read(&self, index: usize) -> (r: bool)
        ensures
            r == (index < storage_view(*self).len() && storage_readable(*self, index as int)),
    {
        match self {
            ListStorage::Object(v) => index < v.len(),
            ListStorage::Ints(v) => index < v.len(),
            ListStorage::Column(c) => c.can_read(index),
            ListStorage::Record(s) => s.can_read(index),
        }
    }

    /// The element at `index`, boxed on the way out.
    fn element_at(&self, index: usize) -> (r: Value)
        requires
            index < storage_view(*self).len(),
            storage_readable(*self, index as int),
        ensures
            r@ == storage_view(*self)[index as int],
    {
        match self {
            ListStorage::Object(v) => v[index].clone(),
            ListStorage::Ints(v) => Value::Int(v[index]),
            ListStorage::Column(c) => c.value_at(index),
            ListStorage::Record(s) => Value::CelMap(CelMap::record(s.clone(), index)),
        }
    }
}

impl Default for ListStorage {
    /// An empty buffer of values.
    fn default() -> (r: ListStorage)
        ensures
            storage_view(r) == Seq::<Val>::empty(),
            r is Object,
    {
        let r = ListStorage::Object(Vec::new());
        assert(storage_view(r) =~= Seq::<Val>::empty());
        r
    }
}

/// The integer that a value is, if it is one.
pub open spec fn int_of(v: Val) -> Option<i64> {
    match v {
        Val::Int(i) => Some(i),
        _ => None,
    }
}

/// Whether every element is an integer.
pub open spec fn all_ints(s: Seq<Val>) -> bool {
    forall|i: int| 0 <= i < s.len() ==> (#[trigger] s[i]) is Int
}

/// The integer that `v` is, in either form.
pub(crate) fn value_as_int(v: &Value) -> (r: Option<i64>)
    ensures
        r == int_of(v@),
{
    match v {
        Value::Int(i) => Some(*i),
        Value::Interned(w) => match &**w {
            W_Root::Int(o) => Some(o.intval),
            _ => None,
        },
        _ => None,
    }
}

/// What is present of `outs`.
pub open spec fn present<T>(outs: Seq<Option<T>>) -> Seq<T>
    decreases outs.len(),
{
    if outs.len() == 0 {
        Seq::empty()
    } else {
        match outs.last() {
            Some(x) => present(outs.drop_last()).push(x),
            None => present(outs.drop_last()),
        }
    }
}

/// Whether `outs` are what `write` gives for `0..n`.
pub open spec fn written<T, E, F: Fn(usize) -> Result<Option<T>, E>>(
    write: F,
    outs: Seq<Option<T>>,
) -> bool {
    forall|i: int|
        0 <= i < outs.len() ==> call_ensures(
            write,
            (i as usize,),
            Ok::<Option<T>, E>(#[trigger] outs[i]),
        )
}

/// Collect `write(0)`, `write(1)`, up to `write(n - 1)`. `None` leaves an index
/// out; the first error ends the collection and drops what was there.
pub(crate) fn try_fill<T, E, F: Fn(usize) -> Result<Option<T>, E>>(n: usize, write: F) -> (r:
    Result<Vec<T>, E>)
    requires
        forall|i: usize| i < n ==> #[trigger] call_requires(write, (i,)),
    ensures
        match r {
            Ok(v) => v@.len() <= n && exists|outs: Seq<Option<T>>|
                outs.len() == n && #[trigger] written(write, outs) && v@ == present(outs),
            Err(e) => exists|outs: Seq<Option<T>>|
                outs.len() < n && #[trigger] written(write, outs) && call_ensures(
                    write,
                    (outs.len() as usize,),
                    Err::<Option<T>, E>(e),
                ),
        },
{
    let mut v: Vec<T> = Vec::new();
    let mut i: usize = 0;
    let ghost mut outs: Seq<Option<T>> = Seq::empty();
    while i < n
        invariant
            forall|i: usize| i < n ==> #[trigger] call_requires(write, (i,)),
            i <= n,
            outs.len() == i,
            v@.len() <= i,
            written(write, outs),
            v@ == present(outs),
        decreases n - i,
    {
        match write(i) {
            Ok(Some(x)) => {
                proof {
                    assert(outs.push(Some(x)).drop_last() =~= outs);
                    outs = outs.push(Some(x));
                }
                v.push(x);
            },
            Ok(None) => {
                proof {
                    assert(outs.push(None).drop_last() =~= outs);
                    outs = outs.push(None);
                }
            },
            Err(e) => {
                assert(outs.len() as usize == i);
                return Err(e);
            },
        }
        i = i + 1;
    }
    Ok(v)
}

/// Whether two lists are windows over one buffer, given whether their buffers are one
/// allocation: both buffers came in as shared ones or neither did, and they are one
/// allocation, or both lists own an empty buffer of one kind.
pub open spec fn shares_given(a: ListRef, b: ListRef, same: bool) -> bool {
    &&& a.over_shared() == b.over_shared()
    &&& same || {
        &&& !a.over_shared()
        &&& a.holds_ints() == b.holds_ints()
        &&& storage_view(a.buffer()).len() == 0
        &&& storage_view(b.buffer()).len() == 0
    }
}

impl ListRef {
    #[verifier::type_invariant]
    pub(crate) open spec fn inv(self) -> bool {
        &&& self.start + self.len <= storage_view(*self.buf).len()
        &&& self.start + self.len <= usize::MAX
        &&& forall|i: int|
            self.start <= i < self.start + self.len ==> #[trigger] storage_readable(*self.buf, i)
        &&& !self.shared ==> *self.buf is Object || *self.buf is Ints
    }

    /// The buffer.
    pub open(crate) spec fn buffer(&self) -> ListStorage {
        *self.buf
    }

    /// Where in the buffer the list begins.
    pub open(crate) spec fn offset(&self) -> usize {
        self.start
    }

    /// Whether the buffer came in as a shared one.
    pub open(crate) spec fn over_shared(&self) -> bool {
        self.shared
    }

    /// Whether the buffer holds unboxed integers.
    pub open spec fn holds_ints(&self) -> bool {
        self.buffer() is Ints
    }

    /// A list over a buffer that was made for it.
    pub fn new(items: ListStorage) -> (r: ListRef)
        requires
            forall|i: int|
                0 <= i < storage_view(items).len() ==> #[trigger] storage_readable(items, i),
        ensures
            r@ == storage_view(items),
            r.buffer() == items,
            r.over_shared() == !(items is Object || items is Ints),
            r.offset() == 0,
    {
        let len: usize = items.len();
        let shared = match &items {
            ListStorage::Object(_) | ListStorage::Ints(_) => false,
            _ => true,
        };
        let r = ListRef { buf: Arc::new(items), start: 0, len, shared };
        assert(r@ =~= storage_view(items));
        r
    }

    /// The list of these values.
    pub fn from_vec(items: Vec<Value>) -> (r: ListRef)
        ensures
            r@ == values_view(items@),
            r.buffer() == ListStorage::Object(items),
            !r.over_shared(),
            r.offset() == 0,
    {
        ListRef::new(ListStorage::Object(items))
    }

    /// The list of these integers, unboxed.
    pub fn from_ints(items: Vec<i64>) -> (r: ListRef)
        ensures
            r@ == ints_view(items@),
            r.buffer() == ListStorage::Ints(items),
            !r.over_shared(),
            r.offset() == 0,
    {
        ListRef::new(ListStorage::Ints(items))
    }

    /// The elements `start..start + len` of a shared buffer.
    pub fn window(storage: Arc<ListStorage>, start: usize, len: usize) -> (r: ListRef)
        requires
            start + len <= storage_view(*storage).len(),
            forall|i: int| start <= i < start + len ==> #[trigger] storage_readable(*storage, i),
        ensures
            r@ == storage_view(*storage).subrange(start as int, start + len),
            r.buffer() == *storage,
            r.over_shared(),
            r.offset() == start,
    {
        let n: usize = storage.len();
        assert(start + len <= n);
        ListRef { buf: storage, start, len, shared: true }
    }

    /// All of a shared buffer.
    pub fn whole(storage: Arc<ListStorage>) -> (r: ListRef)
        requires
            forall|i: int|
                0 <= i < storage_view(*storage).len() ==> #[trigger] storage_readable(*storage, i),
        ensures
            r@ == storage_view(*storage),
            r.buffer() == *storage,
            r.over_shared(),
            r.offset() == 0,
    {
        let len: usize = storage.len();
        let r = ListRef::window(storage, 0, len);
        assert(r@ =~= storage_view(*storage));
        r
    }

    /// The list that `write(0)` to `write(n - 1)` give. `None` leaves an index
    /// out, and the first error is returned.
    pub fn try_fill_values<E, F: Fn(usize) -> Result<Option<Value>, E>>(n: usize, write: F) -> (r:
        Result<ListRef, E>)
        requires
            forall|i: usize| i < n ==> #[trigger] call_requires(write, (i,)),
        ensures
            match r {
                Ok(l) => exists|outs: Seq<Option<Value>>|
                    outs.len() == n && #[trigger] written(write, outs) && l@ == values_view(
                        present(outs),
                    ),
                Err(e) => exists|outs: Seq<Option<Value>>|
                    outs.len() < n && #[trigger] written(write, outs) && call_ensures(
                        write,
                        (outs.len() as usize,),
                        Err::<Option<Value>, E>(e),
                    ),
            },
    {
        match try_fill(n, write) {
            Ok(v) => Ok(ListRef::from_vec(v)),
            Err(e) => Err(e),
        }
    }

    /// As [`ListRef::try_fill_values`], for unboxed integers.
    pub fn try_fill_ints<E, F: Fn(usize) -> Result<Option<i64>, E>>(n: usize, write: F) -> (r:
        Result<ListRef, E>)
        requires
            forall|i: usize| i < n ==> #[trigger] call_requires(write, (i,)),
        ensures
            match r {
                Ok(l) => exists|outs: Seq<Option<i64>>|
                    outs.len() == n && #[trigger] written(write, outs) && l@ == ints_view(
                        present(outs),
                    ),
                Err(e) => exists|outs: Seq<Option<i64>>|
                    outs.len() < n && #[trigger] written(write, outs) && call_ensures(
                        write,
                        (outs.len() as usize,),
                        Err::<Option<i64>, E>(e),
                    ),
            },
    {
        match try_fill(n, write) {
            Ok(v) => Ok(ListRef::from_ints(v)),
            Err(e) => Err(e),
        }
    }

    /// Whether the buffer holds unboxed integers.
    pub fn is_ints(&self) -> (r: bool)
        ensures
            r == self.holds_ints(),
    {
        match &*self.buf {
            ListStorage::Ints(_) => true,
            _ => false,
        }
    }

    /// The buffer, if it came in as a shared one.
    pub fn storage(&self) -> (r: Option<&ListStorage>)
        ensures
            match r {
                Some(s) => self.over_shared() && *s == self.buffer(),
                None => !self.over_shared(),
            },
    {
        if self.shared {
            Some(&*self.buf)
        } else {
            None
        }
    }

    /// The elements `start..start + len` of this list, over the same buffer.
    pub fn slice(&self, start: usize, len: usize) -> (r: ListRef)
        requires
            start + len <= self@.len(),
        ensures
            r@ == self@.subrange(start as int, start + len),
    {
        proof {
            use_type_invariant(self);
        }
        let r = ListRef {
            buf: self.buf.clone(),
            start: self.start + start,
            len,
            shared: self.shared,
        };
        assert(r@ =~= self@.subrange(start as int, start + len));
        r
    }

    pub fn len(&self) -> (r: usize)
        ensures
            r == self@.len(),
    {
        proof {
            use_type_invariant(self);
        }
        self.len
    }

    pub fn is_empty(&self) -> (r: bool)
        ensures
            r == (self@.len() == 0),
    {
        self.len() == 0
    }

    /// The element at `index`, boxed on the way out when the buffer does not hold
    /// it as a value.
    pub fn get(&self, index: usize) -> (r: Option<Value>)
        ensures
            match r {
                Some(v) => index < self@.len() && v@ == self@[index as int],
                None => index >= self@.len(),
            },
    {
        proof {
            use_type_invariant(self);
        }
        if index < self.len {
            Some(self.buf.element_at(self.start + index))
        } else {
            None
        }
    }

    /// The elements as values.
    pub fn to_vec(&self) -> (r: Vec<Value>)
        ensures
            values_view(r@) == self@,
    {
        let mut out: Vec<Value> = Vec::new();
        let mut i: usize = 0;
        while i < self.len()
            invariant
                i <= self@.len(),
                out@.len() == i,
                forall|j: int| 0 <= j < i ==> value_view(#[trigger] out@[j]) == self@[j],
            decreases self@.len() - i,
        {
            if let Some(v) = self.get(i) {
                out.push(v);
            }
            i = i + 1;
        }
        assert(values_view(out@) =~= self@);
        out
    }

    /// The elements as values, consuming the list.
    pub fn into_vec(self) -> (r: Vec<Value>)
        ensures
            values_view(r@) == self@,
    {
        self.to_vec()
    }

    /// Whether both lists are windows over one buffer, given whether their buffers are
    /// one allocation. Empty lists that own their buffer share the one empty buffer of
    /// their kind.
    pub fn shares_storage_given(&self, other: &ListRef, same: bool) -> (r: bool)
        ensures
            r == shares_given(*self, *other, same),
    {
        if self.shared != other.shared {
            return false;
        }
        proof {
            use_type_invariant(self);
            use_type_invariant(other);
        }
        if !self.shared {
            match (&*self.buf, &*other.buf) {
                (ListStorage::Object(a), ListStorage::Object(b)) => if a.len() == 0 && b.len()
                    == 0 {
                    return true;
                },
                (ListStorage::Ints(a), ListStorage::Ints(b)) => if a.len() == 0 && b.len() == 0 {
                    return true;
                },
                _ => {},
            }
        }
        same
    }

    /// Whether both lists are windows over one buffer. Whether the two buffers are one
    /// allocation is what [`std::sync::Arc::ptr_eq`] says of them, and
    /// [`ListRef::shares_storage_given`] is the answer for it.
    pub fn shares_storage_with(&self, other: &ListRef) -> (r: bool)
        ensures
            exists|same: bool|
                (same ==> self.buffer() == other.buffer()) && r == #[trigger] shares_given(
                    *self,
                    *other,
                    same,
                ),
    {
        let same = same_arc(&self.buf, &other.buf);
        let r = self.shares_storage_given(other, same);
        assert(r == shares_given(*self, *other, same));
        r
    }

    /// Whether both lists are the same window over one buffer, given whether their
    /// buffers are one allocation.
    pub fn ptr_eq_given(&self, other: &ListRef, same: bool) -> (r: bool)
        ensures
            r == (shares_given(*self, *other, same) && self.offset() == other.offset()
                && self@.len() == other@.len()),
    {
        proof {
            use_type_invariant(self);
            use_type_invariant(other);
        }
        self.shares_storage_given(other, same) && self.start == other.start && self.len
            == other.len
    }

    /// Whether both lists are the same window over one buffer. They then hold the same
    /// elements. Whether the two buffers are one allocation is what
    /// [`std::sync::Arc::ptr_eq`] says of them, and [`ListRef::ptr_eq_given`] is the
    /// answer for it.
    pub fn ptr_eq(&self, other: &ListRef) -> (r: bool)
        ensures
            exists|same: bool|
                (same ==> self.buffer() == other.buffer()) && r == (#[trigger] shares_given(
                    *self,
                    *other,
                    same,
                ) && self.offset() == other.offset() && self@.len() == other@.len()),
            r ==> self@ == other@,
    {
        proof {
            use_type_invariant(self);
            use_type_invariant(other);
        }
        let same = same_arc(&self.buf, &other.buf);
        let r = self.ptr_eq_given(other, same);
        assert(r == (shares_given(*self, *other, same) && self.offset() == other.offset()
            && self@.len() == other@.len()));
        assert(r ==> self@ =~= other@);
        r
    }

    /// The elements of both lists, in order. A list of integers stays unboxed; two
    /// empty lists give an empty list of values.
    pub fn concat(self, other: &ListRef) -> (r: ListRef)
        ensures
            r@ == self@ + other@,
            r.holds_ints() == ((self@ + other@).len() > 0 && all_ints(self@ + other@)),
            !r.over_shared(),
            r.offset() == 0,
            storage_view(r.buffer()) == self@ + other@,
    {
        if let Some(out) = concat_int_lists(&self, other) {
            return out;
        }
        let mut out: Vec<Value> = self.to_vec();
        let ghost left = self@;
        let mut i: usize = 0;
        while i < other.len()
            invariant
                i <= other@.len(),
                out@.len() == left.len() + i,
                forall|j: int|
                    0 <= j < out@.len() ==> value_view(#[trigger] out@[j]) == (left + other@)[j],
            decreases other@.len() - i,
        {
            if let Some(v) = other.get(i) {
                out.push(v);
            }
            i = i + 1;
        }
        assert(values_view(out@) =~= left + other@);
        ListRef::from_vec(out)
    }
}

/// The integer at `i`, if the element there is one.
fn int_at(list: &ListRef, i: usize) -> (r: Option<i64>)
    requires
        i < list@.len(),
    ensures
        r == int_of(list@[i as int]),
{
    proof {
        use_type_invariant(list);
    }
    match &*list.buf {
        ListStorage::Ints(v) => Some(v[list.start + i]),
        ListStorage::Object(v) => value_as_int(&v[list.start + i]),
        _ => match list.get(i) {
            Some(v) => value_as_int(&v),
            None => None,
        },
    }
}

/// The elements of both lists as an unboxed list, if there are any and all are
/// integers.
fn concat_int_lists(left: &ListRef, right: &ListRef) -> (r: Option<ListRef>)
    ensures
        match r {
            Some(l) => {
                &&& l@ == left@ + right@
                &&& l.holds_ints() && l@.len() > 0 && all_ints(l@)
                &&& !l.over_shared() && l.offset() == 0 && storage_view(l.buffer()) == l@
            },
            None => left@.len() + right@.len() == 0 || !all_ints(left@ + right@),
        },
{
    let ghost all = left@ + right@;
    if left.len() == 0 && right.len() == 0 {
        return None;
    }
    let mut ints: Vec<i64> = Vec::new();
    let mut i: usize = 0;
    while i < left.len()
        invariant
            i <= left@.len(),
            all == left@ + right@,
            ints@.len() == i,
            forall|j: int| 0 <= j < i ==> #[trigger] all[j] == Val::Int(ints@[j]),
        decreases left@.len() - i,
    {
        assert(all[i as int] == left@[i as int]);
        match int_at(left, i) {
            Some(v) => ints.push(v),
            None => return None,
        }
        i = i + 1;
    }
    let mut k: usize = 0;
    while k < right.len()
        invariant
            k <= right@.len(),
            all == left@ + right@,
            ints@.len() == left@.len() + k,
            forall|j: int| 0 <= j < left@.len() + k ==> #[trigger] all[j] == Val::Int(ints@[j]),
        decreases right@.len() - k,
    {
        assert(all[left@.len() + k] == right@[k as int]);
        match int_at(right, k) {
            Some(v) => ints.push(v),
            None => return None,
        }
        k = k + 1;
    }
    let r = ListRef::from_ints(ints);
    assert(r@ =~= all);
    Some(r)
}

impl Default for ListRef {
    /// The empty list.
    fn default() -> (r: ListRef)
        ensures
            r@ == Seq::<Val>::empty(),
    {
        let r = ListRef::from_vec(Vec::new());
        assert(r@ =~= Seq::<Val>::empty());
        r
    }
}

} // verus!
