use cel::column::{RecordSchema, ScalarBank, StrBank, ValueColumn};
use cel::key::Key;
use cel::list::{ListRef, ListStorage};
use cel::map::CelMap;
use cel::value::Value;
use std::sync::Arc;

#[test]
fn concat_of_two_int_lists_stays_ints() {
    let a = ListRef::whole(Arc::new(ListStorage::Ints(vec![1, 2, 3])));
    let b = ListRef::whole(Arc::new(ListStorage::Ints(vec![4, 5])));
    let out = a.concat(&b);
    assert!(out.is_ints());
    assert_eq!(
        out.to_vec(),
        vec![Value::Int(1), Value::Int(2), Value::Int(3), Value::Int(4), Value::Int(5)]
    );
}

#[test]
fn concat_of_int_list_and_object_int_stays_ints() {
    let a = ListRef::whole(Arc::new(ListStorage::Ints(vec![1, 2, 3])));
    let b = ListRef::from_vec(vec![Value::Int(15)]);
    let out = a.concat(&b);
    assert!(out.is_ints());
    assert_eq!(
        out.to_vec(),
        vec![Value::Int(1), Value::Int(2), Value::Int(3), Value::Int(15)]
    );
}

#[test]
fn empty_list_clone_and_drop() {
    let a = ListRef::from_vec(Vec::<Value>::new());
    assert!(a.is_empty());
    let b = a.clone();
    assert!(a.ptr_eq(&b));
    drop(a);
    assert_eq!(b.to_vec(), Vec::<Value>::new());
    drop(b);
    let ints = ListRef::whole(Arc::new(ListStorage::Ints(Vec::new())));
    assert!(ints.is_empty());
    assert!(ints.is_ints());
}

#[test]
fn empty_concat_matches_empty_list() {
    let empty = ListRef::from_vec(Vec::<Value>::new());
    let sum = empty.clone().concat(&empty);
    assert!(empty.ptr_eq(&sum));
}

#[test]
fn zero_sized_window_clone_and_drop() {
    let storage = Arc::new(ListStorage::Ints(vec![1, 2, 3]));
    let z = ListRef::window(Arc::clone(&storage), 1, 0);
    assert_eq!(z.len(), 0);
    assert_eq!(z.to_vec(), Vec::<Value>::new());
    let z2 = z.clone();
    assert!(z.shares_storage_with(&z2));
    drop(z);
    assert_eq!(z2.to_vec(), Vec::<Value>::new());
    let whole = ListRef::whole(storage);
    assert_eq!(whole.len(), 3);
    assert!(z2.shares_storage_with(&whole));
}

#[test]
fn one_thousand_windows_over_one_column_allocate_zero_times() {
    let storage = Arc::new(ListStorage::Column(ValueColumn::Scalar {
        bank: ScalarBank::Int,
        words: Arc::from([1i64, 2, 3].as_slice()),
    }));
    let mut windows = Vec::with_capacity(1000);
    for _ in 0..1000 {
        windows.push(ListRef::window(Arc::clone(&storage), 0, 3));
    }
    assert_eq!(Arc::strong_count(&storage), 1001);
    for w in windows.windows(2) {
        assert!(w[0].shares_storage_with(&w[1]));
    }
    drop(windows);
    assert_eq!(Arc::strong_count(&storage), 1);
}

#[test]
fn windowing_a_list_is_a_refcount_bump() {
    let storage = Arc::new(ListStorage::Ints(vec![1, 2, 3, 4]));
    let a = ListRef::window(Arc::clone(&storage), 0, 2);
    let b = ListRef::window(Arc::clone(&storage), 2, 2);
    assert!(a.shares_storage_with(&b));
    assert!(matches!(a.storage(), Some(ListStorage::Ints(_))));
    assert_eq!(a.to_vec(), vec![Value::Int(1), Value::Int(2)]);
    assert_eq!(b.to_vec(), vec![Value::Int(3), Value::Int(4)]);
    drop(storage);
    assert_eq!(a.get(1), Some(Value::Int(2)));
    assert_eq!(b.get(0), Some(Value::Int(3)));
}

#[test]
fn list_fill_drops_prefix_on_error() {
    let s = Arc::new("keep".to_string());
    let err = ListRef::try_fill_values(2, |i| {
        if i == 0 {
            Ok(Some(Value::String(s.clone())))
        } else {
            Err("fail")
        }
    });
    assert_eq!(err, Err("fail"));
    assert_eq!(Arc::strong_count(&s), 1);
}

#[test]
fn ints_list_clone_drop_and_window() {
    let list =
        ListRef::try_fill_ints(3, |i| Ok::<Option<i64>, ()>(Some(i as i64 + 1))).unwrap();
    let a = list.clone();
    drop(list);
    assert_eq!(a.to_vec(), vec![Value::Int(1), Value::Int(2), Value::Int(3)]);
    let storage = Arc::new(ListStorage::Ints(vec![10, 20, 30]));
    let w = ListRef::window(Arc::clone(&storage), 1, 1);
    assert_eq!(w.to_vec(), vec![Value::Int(20)]);
    let w2 = w.clone();
    drop(w);
    drop(storage);
    assert_eq!(w2.get(0), Some(Value::Int(20)));
    drop(a);
    drop(w2);
}

#[test]
fn fill_ints_drops_on_error() {
    let err = ListRef::try_fill_ints(2, |i| if i == 0 { Ok(Some(1)) } else { Err("fail") });
    assert_eq!(err, Err("fail"));
}

#[test]
fn filling_skips_what_the_writer_leaves_out() {
    let write = |i: usize| Ok::<Option<Value>, ()>(if i == 1 { None } else { Some(Value::UInt(i as u64)) });
    let list = ListRef::try_fill_values(3, write).unwrap();
    assert_eq!(list.to_vec(), vec![Value::UInt(0), Value::UInt(2)]);
    assert!(!list.is_ints());
    assert!(list.storage().is_none());
    let write = |i: usize| Ok::<Option<i64>, ()>(if i == 0 { None } else { Some(7) });
    let list = ListRef::try_fill_ints(3, write).unwrap();
    assert_eq!(list.to_vec(), vec![Value::Int(7), Value::Int(7)]);
    assert!(list.is_ints());
}

#[test]
fn a_slice_is_a_window_of_a_window() {
    let storage = Arc::new(ListStorage::Ints(vec![10, 20, 30, 40]));
    let w = ListRef::window(Arc::clone(&storage), 1, 3);
    let s = w.slice(1, 2);
    assert_eq!(s.to_vec(), vec![Value::Int(30), Value::Int(40)]);
    assert!(s.shares_storage_with(&w));
    assert!(!s.ptr_eq(&w));
    assert_eq!(s.get(2), None);
    assert_eq!(s.clone().into_vec(), s.to_vec());
    assert!(s.contains(&Value::UInt(40)));
    assert!(!s.contains(&Value::Int(20)));
}

#[test]
fn concatenation_appends() {
    let a = ListRef::from_vec(vec![Value::from("a")]);
    let b = ListRef::from_vec(vec![Value::Int(1), Value::Null]);
    let ab = a.clone().concat(&b);
    assert_eq!(ab.to_vec(), vec![Value::from("a"), Value::Int(1), Value::Null]);
    assert_eq!(a.to_vec(), vec![Value::from("a")]);
    let c = ListRef::from_vec(vec![Value::Bool(true)]);
    let left = a.clone().concat(&b).concat(&c);
    let right = a.concat(&b.clone().concat(&c));
    assert_eq!(left, right);
}

#[test]
fn columns_read_back_by_their_bank() {
    let words: Arc<[i64]> = Arc::from([-1i64, 5].as_slice());
    let col = |bank: ScalarBank| ValueColumn::Scalar { bank, words: words.clone() };
    assert_eq!(col(ScalarBank::Int).value_at(0), Value::Int(-1));
    assert_eq!(col(ScalarBank::UInt).value_at(0), Value::UInt(u64::MAX));
    assert_eq!(col(ScalarBank::Float).value_at(1), Value::Float(5));
    assert_eq!(col(ScalarBank::Bool).value_at(0), Value::Bool(true));
    let bank = StrBank::new(
        Arc::from([1i64, 0, 1].as_slice()),
        Arc::from(vec![Arc::new("a".to_string()), Arc::new("b".to_string())]),
    );
    assert_eq!(bank.len(), 3);
    let strs = ValueColumn::Str(Arc::new(bank));
    assert_eq!(strs.value_at(0), Value::from("b"));
    assert_eq!(strs.value_at(1), Value::from("a"));
}

#[test]
fn a_column_is_read_where_its_codes_are_places() {
    let bank = StrBank::new(
        Arc::from([0i64, 2, -1].as_slice()),
        Arc::from(vec![Arc::new("a".to_string()), Arc::new("b".to_string())]),
    );
    assert_eq!(bank.len(), 3);
    assert!(!bank.is_empty());
    let strs = ValueColumn::Str(Arc::new(bank));
    assert_eq!((0..4).map(|i| strs.can_read(i)).collect::<Vec<_>>(), [true, false, false, false]);
    let words: Arc<[i64]> = Arc::from([99i64; 3].as_slice());
    let words = ValueColumn::Scalar { bank: ScalarBank::Type, words };
    assert!(words.can_read(2));
    assert!(!words.can_read(3));
    let schema = RecordSchema::new(vec![Key::from("a"), Key::from("b")], vec![strs.clone(), words]);
    assert!(schema.can_read(0));
    assert!(!schema.can_read(1));
    assert!(!schema.can_read(3));
    let rows = ListStorage::Record(Arc::new(schema));
    assert!(rows.can_read(0));
    assert!(!rows.can_read(2));
    assert!(!ListStorage::Ints(vec![1]).can_read(1));
    // A list over the part that can be read is one like any other.
    let storage = Arc::new(ListStorage::Column(strs));
    assert!(storage.can_read(0));
    assert!(!storage.can_read(1));
    let window = ListRef::window(storage, 0, 1);
    assert_eq!(window.get(0), Some(Value::from("a")));
    assert_eq!(window.get(1), None);
}

#[test]
fn records_are_maps_over_columns() {
    let schema = Arc::new(RecordSchema::new(
        vec![Key::from("a"), Key::Int(7)],
        vec![
            ValueColumn::Scalar { bank: ScalarBank::Int, words: Arc::from([42i64, 43].as_slice()) },
            ValueColumn::Scalar { bank: ScalarBank::Bool, words: Arc::from([1i64, 0].as_slice()) },
        ],
    ));
    assert_eq!(schema.rows(), 2);
    assert_eq!(schema.field_count(), 2);
    let row = CelMap::record(schema.clone(), 1);
    assert_eq!(row.len(), 2);
    assert_eq!(row.get(&Key::from("a")), Some(Value::Int(43)));
    assert_eq!(row.get(&Key::Uint(7)), Some(Value::Bool(false)));
    assert_eq!(row.get(&Key::Int(8)), None);
    let rows = ListRef::new(ListStorage::Record(schema));
    assert_eq!(rows.len(), 2);
    assert_eq!(rows.get(1), Some(Value::CelMap(row)));
}

/// A value, and a handle that tells whether the value was dropped.
fn probe() -> (Value, Arc<String>) {
    let watched = Arc::new("probe".to_string());
    (Value::String(Arc::clone(&watched)), watched)
}

fn hits(watched: &Arc<String>) -> usize {
    2 - Arc::strong_count(watched)
}

#[test]
fn object_list_clone_drop_reaches_zero_once() {
    let (v, watched) = probe();
    let list = ListRef::from_vec(vec![v]);
    let clone = list.clone();
    drop(list);
    assert_eq!(hits(&watched), 0);
    drop(clone);
    assert_eq!(hits(&watched), 1);
}

#[test]
fn shared_list_clone_drop_reaches_zero_once() {
    let (v, watched) = probe();
    let storage = Arc::new(ListStorage::Object(vec![v]));
    let a = ListRef::window(Arc::clone(&storage), 0, 1);
    let b = ListRef::window(storage, 0, 1);
    assert!(a.shares_storage_with(&b));
    drop(a);
    assert_eq!(hits(&watched), 0);
    drop(b);
    assert_eq!(hits(&watched), 1);
}

#[test]
fn empty_and_windows_over_each_kind() {
    let empty = ListRef::from_vec(Vec::<Value>::new());
    assert!(empty.is_empty());
    drop(empty.clone());
    drop(empty);

    let (v, watched) = probe();
    let object = ListRef::from_vec(vec![v]);
    let object_w = object.slice(0, 0);
    assert_eq!(object_w.len(), 0);
    drop(object);
    drop(object_w);
    assert_eq!(hits(&watched), 1);

    let ints = ListRef::try_fill_ints(2, |i| Ok::<Option<i64>, ()>(Some(i as i64))).unwrap();
    let ints_w = ints.slice(1, 0);
    assert_eq!(ints_w.len(), 0);
    drop(ints);
    drop(ints_w);

    let col = Arc::new(ListStorage::Column(ValueColumn::Scalar {
        bank: ScalarBank::Int,
        words: Arc::from([1i64, 2, 3].as_slice()),
    }));
    let col_w = ListRef::window(Arc::clone(&col), 1, 0);
    assert_eq!(col_w.len(), 0);
    let col_full = ListRef::window(col, 0, 3);
    assert!(col_w.shares_storage_with(&col_full));
    drop(col_w);
    assert_eq!(col_full.len(), 3);
    drop(col_full);
}

#[test]
fn list_clone_drop_on_this_thread() {
    let (v, watched) = probe();
    let object = ListRef::from_vec(vec![v]);
    let ints = ListRef::try_fill_ints(4, |i| Ok::<Option<i64>, ()>(Some(i as i64))).unwrap();
    let (v2, watched2) = probe();
    let shared = ListRef::whole(Arc::new(ListStorage::Object(vec![v2])));
    for _ in 0..4 {
        drop(object.clone());
        drop(ints.clone());
        drop(shared.clone());
    }
    drop(object);
    drop(ints);
    drop(shared);
    assert_eq!(hits(&watched), 1);
    assert_eq!(hits(&watched2), 1);
}

#[test]
fn identity_is_of_the_window_and_the_buffer() {
    let s = Arc::new(ListStorage::Ints(vec![1, 1, 1, 1]));
    let a = ListRef::window(s.clone(), 0, 2);
    let b = ListRef::window(s.clone(), 2, 2);
    let c = ListRef::window(s.clone(), 0, 2);
    assert!(a.ptr_eq(&c));
    assert!(!a.ptr_eq(&b));
    assert_eq!(a, b);
    assert!(a.ptr_eq_given(&c, true));
    assert!(!a.ptr_eq_given(&c, false));
    assert!(!a.ptr_eq_given(&b, true));
    assert!(a.shares_storage_given(&b, true));
    let owned = ListRef::from_ints(vec![1, 1]);
    assert!(!a.shares_storage_given(&owned, true));
    let empty = ListRef::from_vec(vec![]);
    assert!(empty.ptr_eq_given(&ListRef::from_vec(vec![]), false));
    assert!(!empty.ptr_eq_given(&ListRef::from_ints(vec![]), false));
    assert!(empty.ptr_eq(&empty.clone().concat(&empty)));
    let m = CelMap::ordered(vec![(Key::Int(1), Value::Null)]);
    assert!(m.ptr_eq(&m.clone()));
    assert!(m.ptr_eq_given(&m, true));
    assert!(!m.ptr_eq_given(&m, false));
}
