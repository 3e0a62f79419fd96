//! Columns: batches of values in the representation that the batch holds them in.

use crate::key::{key_view, AsKeyRef, Key, KeyRef};
use crate::model::{position_from, CoreType, TypeV, Val};
use crate::time::{Duration, Instant, Timestamp};
use crate::value::{Opaque, TypeValue, Value};
use std::sync::Arc;
use vstd::prelude::*;

verus! {

/// A string column: codes into the batch's distinct strings, which are held once.
#[derive(Debug)]
pub struct StrBank {
    codes: Arc<[i64]>,
    interned: Arc<[Arc<String>]>,
}

impl View for StrBank {
    type V = Seq<Seq<char>>;

    closed spec fn view(&self) -> Seq<Seq<char>> {
        Seq::new(self.codes@.len(), |i: int| self.interned@[self.codes@[i] as int]@)
    }
}

impl StrBank {
    /// Whether the code at `i` is a place in the table of strings.
    pub closed spec fn readable(&self, i: int) -> bool {
        0 <= self.codes@[i] < self.interned@.len()
    }

    /// A column whose `i`-th string is `interned[codes[i]]`. It can be read where the
    /// code is a place in `interned`.
    pub fn new(codes: Arc<[i64]>, interned: Arc<[Arc<String>]>) -> (r: StrBank)
        ensures
            r@ =~= Seq::new(codes@.len(), |i: int| interned@[codes@[i] as int]@),
            forall|i: int|
                0 <= i < codes@.len() ==> #[trigger] r.readable(i) == (0 <= codes@[i]
                    < interned@.len()),
    {
        StrBank { codes, interned }
    }

    fn can_read(&self, index: usize) -> (r: bool)
        requires
            index < self@.len(),
        ensures
            r == self.readable(index as int),
    {
        let code: i64 = self.codes[index];
        0 <= code && (code as u64) < (self.interned.len() as u64)
    }

    pub fn len(&self) -> (r: usize)
        ensures
            r == self@.len(),
    {
        self.codes.len()
    }

    pub fn is_empty(&self) -> (r: bool)
        ensures
            r == (self@.len() == 0),
    {
        self.codes.len() == 0
    }

    fn value_at(&self, index: usize) -> (r: Value)
        requires
            index < self@.len(),
            self.readable(index as int),
        ensures
            r@ == Val::Str(self@[index as int]),
    {
        let code: i64 = self.codes[index];
        Value::String(self.interned[code as usize].clone())
    }
}

/// How the words of a scalar column are read.
#[derive(Clone, Copy, Debug, PartialEq, Eq, Structural)]
pub enum ScalarBank {
    Int,
    UInt,
    Bool,
    Float,
    /// Nanoseconds since the Unix epoch.
    Timestamp,
    /// Nanoseconds.
    Duration,
    /// A place in the table of core types.
    Type,
}

/// The type at a place in the table of core types.
pub open spec fn type_at(word: i64) -> Option<CoreType> {
    match word {
        0 => Some(CoreType::Int),
        1 => Some(CoreType::UInt),
        2 => Some(CoreType::Double),
        3 => Some(CoreType::Bool),
        4 => Some(CoreType::String),
        5 => Some(CoreType::Bytes),
        6 => Some(CoreType::Null),
        7 => Some(CoreType::List),
        8 => Some(CoreType::CelMap),
        9 => Some(CoreType::Type),
        10 => Some(CoreType::Optional),
        11 => Some(CoreType::Duration),
        12 => Some(CoreType::Timestamp),
        _ => None,
    }
}

/// What a word of a scalar column stands for. A word that names no type is null.
pub open spec fn scalar_val(bank: ScalarBank, word: i64) -> Val {
    match bank {
        ScalarBank::Int => Val::Int(word),
        ScalarBank::UInt => Val::UInt(word as u64),
        ScalarBank::Bool => Val::Bool(word != 0),
        ScalarBank::Float => Val::Double(word as u64),
        ScalarBank::Timestamp => Val::Timestamp(Instant { nanos: word as int, leap: false, offset: 0 }),
        ScalarBank::Duration => Val::Duration(word as int),
        ScalarBank::Type => match type_at(word) {
            Some(t) => Val::Type(TypeV::Core(t)),
            None => Val::Null,
        },
    }
}

/// The type value at a place in the table of core types, or null.
pub fn type_const_value(word: i64) -> (r: Value)
    ensures
        r@ == scalar_val(ScalarBank::Type, word),
{
    let t = match word {
        0 => CoreType::Int,
        1 => CoreType::UInt,
        2 => CoreType::Double,
        3 => CoreType::Bool,
        4 => CoreType::String,
        5 => CoreType::Bytes,
        6 => CoreType::Null,
        7 => CoreType::List,
        8 => CoreType::CelMap,
        9 => CoreType::Type,
        10 => CoreType::Optional,
        11 => CoreType::Duration,
        12 => CoreType::Timestamp,
        _ => return Value::Null,
    };
    Value::Opaque(Arc::new(Opaque::Type(TypeValue::Core(t))))
}

/// One column of a batch.
#[derive(Debug)]
pub enum ValueColumn {
    /// Raw words, read through `bank`.
    Scalar { bank: ScalarBank, words: Arc<[i64]> },
    /// Codes into a table of strings.
    Str(Arc<StrBank>),
}

impl View for ValueColumn {
    type V = Seq<Val>;

    open spec fn view(&self) -> Seq<Val> {
        match *self {
            ValueColumn::Scalar { bank, words } => Seq::new(
                words@.len(),
                |i: int| scalar_val(bank, words@[i]),
            ),
            ValueColumn::Str(bank) => Seq::new(bank@.len(), |i: int| Val::Str(bank@[i])),
        }
    }
}

impl Clone for ValueColumn {
    /// A reference count, not a copy of the words.
    fn clone(&self) -> (r: ValueColumn)
        ensures
            r == *self,
    {
        match self {
            ValueColumn::Scalar { bank, words } => ValueColumn::Scalar {
                bank: *bank,
                words: words.clone(),
            },
            ValueColumn::Str(bank) => ValueColumn::Str(bank.clone()),
        }
    }
}

impl ValueColumn {
    /// Whether the column can be read at `i`. Words always can.
    pub open spec fn readable(&self, i: int) -> bool {
        match *self {
            ValueColumn::Scalar { .. } => true,
            ValueColumn::Str(bank) => bank.readable(i),
        }
    }

    /// Whether [`ValueColumn::value_at`] accepts this index.
    pub fn can_read(&self, index: usize) -> (r: bool)
        ensures
            r == (index < self@.len() && self.readable(index as int)),
    {
        if index >= self.len() {
            return false;
        }
        match self {
            ValueColumn::Scalar { .. } => true,
            ValueColumn::Str(bank) => bank.can_read(index),
        }
    }

    /// The value at `index`, boxed on the way out.
    pub fn value_at(&self, index: usize) -> (r: Value)
        requires
            index < self@.len(),
            self.readable(index as int),
        ensures
            r@ == self@[index as int],
    {
        match self {
            ValueColumn::Scalar { bank, words } => {
                let word: i64 = words[index];
                match bank {
                    ScalarBank::Int => Value::Int(word),
                    ScalarBank::UInt => Value::UInt(
                        #[verifier::truncate]
                        (word as u64),
                    ),
                    ScalarBank::Bool => Value::Bool(word != 0),
                    ScalarBank::Float => Value::Float(
                        #[verifier::truncate]
                        (word as u64),
                    ),
                    ScalarBank::Timestamp => Value::Timestamp(
                        Timestamp::utc_from_nanoseconds(word),
                    ),
                    ScalarBank::Duration => Value::Duration(Duration::nanoseconds(word)),
                    ScalarBank::Type => type_const_value(word),
                }
            },
            ValueColumn::Str(bank) => bank.value_at(index),
        }
    }

    pub fn len(&self) -> (r: usize)
        ensures
            r == self@.len(),
    {
        match self {
            ValueColumn::Scalar { words, .. } => words.len(),
            ValueColumn::Str(bank) => bank.len(),
        }
    }

    pub fn is_empty(&self) -> (r: bool)
        ensures
            r == (self@.len() == 0),
    {
        self.len() == 0
    }
}

/// The field names and the columns that every row of a record batch shares, so
/// that a row is an index and no table of its own.
#[derive(Debug)]
pub struct RecordSchema {
    keys: Vec<Key>,
    columns: Vec<ValueColumn>,
}

/// One column per key, and as many rows in each column as in the next.
pub open spec fn schema_shape(keys: Seq<Key>, columns: Seq<ValueColumn>) -> bool {
    &&& keys.len() == columns.len()
    &&& forall|i: int, j: int|
        0 <= i < columns.len() && 0 <= j < columns.len() ==> (#[trigger] columns[i])@.len() == (
        #[trigger] columns[j])@.len()
}

impl RecordSchema {
    #[verifier::type_invariant]
    pub(crate) closed spec fn inv(self) -> bool {
        schema_shape(self.keys@, self.columns@)
    }

    /// The field names.
    pub closed spec fn spec_keys(&self) -> Seq<Key> {
        self.keys@
    }

    /// The columns.
    pub closed spec fn spec_columns(&self) -> Seq<ValueColumn> {
        self.columns@
    }

    /// How many records the columns hold.
    pub open spec fn row_count(&self) -> nat {
        if self.spec_columns().len() == 0 {
            0
        } else {
            self.spec_columns()[0]@.len()
        }
    }

    /// Whether every field of record `index` can be read.
    pub open spec fn row_readable(&self, index: int) -> bool {
        forall|f: int|
            0 <= f < self.spec_columns().len() ==> (
            #[trigger] self.spec_columns()[f]).readable(index)
    }

    /// The entries of record `index`.
    pub open spec fn row(&self, index: int) -> Seq<(Val, Val)> {
        Seq::new(
            self.spec_keys().len(),
            |f: int| (key_view(self.spec_keys()[f]), self.spec_columns()[f]@[index]),
        )
    }

    /// A schema that names one column per key, all of one length.
    pub fn new(keys: Vec<Key>, columns: Vec<ValueColumn>) -> (r: RecordSchema)
        requires
            schema_shape(keys@, columns@),
        ensures
            r.spec_keys() == keys@,
            r.spec_columns() == columns@,
    {
        RecordSchema { keys, columns }
    }

    /// Whether [`RecordSchema::new`] accepts these: one column per key, and every
    /// column of the same length.
    pub fn is_shape(keys: &Vec<Key>, columns: &Vec<ValueColumn>) -> (r: bool)
        ensures
            r == schema_shape(keys@, columns@),
    {
        if keys.len() != columns.len() {
            return false;
        }
        let mut i: usize = 0;
        while i < columns.len()
            invariant
                i <= columns@.len(),
                keys@.len() == columns@.len(),
                forall|j: int| 0 <= j < i ==> (#[trigger] columns@[j])@.len() == columns@[0]@.len(),
            decreases columns@.len() - i,
        {
            if columns[i].len() != columns[0].len() {
                assert(columns@[i as int]@.len() != columns@[0]@.len());
                return false;
            }
            i = i + 1;
        }
        true
    }

    pub fn field_count(&self) -> (r: usize)
        ensures
            r == self.spec_keys().len(),
    {
        self.keys.len()
    }

    /// How many records the columns hold.
    pub fn rows(&self) -> (r: usize)
        ensures
            r == self.row_count(),
    {
        if self.columns.len() == 0 {
            0
        } else {
            self.columns[0].len()
        }
    }

    pub fn keys(&self) -> (r: &Vec<Key>)
        ensures
            r@ == self.spec_keys(),
    {
        &self.keys
    }

    /// Whether record `index` is there and every field of it can be read.
    pub fn can_read(&self, index: usize) -> (r: bool)
        ensures
            r == (index < self.row_count() && self.row_readable(index as int)),
    {
        if index >= self.rows() {
            return false;
        }
        proof {
            use_type_invariant(self);
        }
        let mut f: usize = 0;
        while f < self.columns.len()
            invariant
                f <= self.columns@.len(),
                self.inv(),
                index < self.row_count(),
                forall|g: int| 0 <= g < f ==> (#[trigger] self.columns@[g]).readable(index as int),
            decreases self.columns@.len() - f,
        {
            assert(self.columns@[f as int]@.len() == self.columns@[0]@.len());
            if !self.columns[f].can_read(index) {
                assert(!self.spec_columns()[f as int].readable(index as int));
                return false;
            }
            f = f + 1;
        }
        true
    }

    /// The place of a field. A record carries a handful of fields, so the names
    /// are scanned.
    pub(crate) fn position(&self, key: KeyRef<'_>) -> (r: Option<usize>)
        ensures
            match r {
                Some(i) => crate::model::position(self.row(0), key@) == i && i
                    < self.spec_keys().len(),
                None => crate::model::position(self.row(0), key@) == -1,
            },
    {
        let ghost row = self.row(0);
        let mut i: usize = 0;
        while i < self.keys.len()
            invariant
                i <= self.keys@.len(),
                row == self.row(0),
                row.len() == self.keys@.len(),
                crate::model::position(row, key@) == position_from(
                    row,
                    key@,
                    i as int,
                ),
            decreases self.keys@.len() - i,
        {
            if self.keys[i].as_keyref().same(key) {
                return Some(i);
            }
            i = i + 1;
        }
        None
    }

    /// The value of field `field` in record `index`.
    pub(crate) fn field_at(&self, field: usize, index: usize) -> (r: Value)
        requires
            field < self.spec_keys().len(),
            index < self.row_count(),
            self.row_readable(index as int),
        ensures
            r@ == self.row(index as int)[field as int].1,
    {
        proof {
            use_type_invariant(self);
            assert(self.columns@[field as int]@.len() == self.columns@[0]@.len());
        }
        self.columns[field].value_at(index)
    }
}

} // verus!
