use cel::access::{optional_none, optional_of};
use cel::column::{RecordSchema, ScalarBank, ValueColumn};
use cel::key::Key;
use cel::list::{ListRef, ListStorage};
use cel::map::{CelMap, Table};
use cel::model::{BinOp, CoreType};
use cel::runtime::binop::{cel_add, cel_equals, values_equal, LeafOut};
use cel::runtime::const_pool::ConstPool;
use cel::runtime::convert::{intern_leaf, key_to_ref, ref_to_key, ref_to_value, value_to_ref};
use cel::runtime::error::ErrorSlot;
use cel::runtime::heap::CelHeap;
use cel::runtime::object::{
    new_bool, new_double, new_int, new_null, same_object, w_kind, w_place, CelKind, CelRef, Place,
    W_Root,
};
use cel::time::{Duration, Timestamp};
use cel::value::{CelStruct, HostObject, Opaque, TypeValue, Value};
use std::sync::Arc;

fn roundtrip(v: &Value) -> Value {
    let mut heap = CelHeap::new();
    let w = value_to_ref(&mut heap, v).expect("to_ref");
    ref_to_value(&w).expect("to_value")
}

fn text(s: &str) -> Value {
    Value::String(Arc::new(s.to_string()))
}

fn float(f: f64) -> Value {
    Value::Float(f.to_bits())
}

fn list(items: Vec<Value>) -> Value {
    Value::List(ListRef::from_vec(items))
}

fn object_map(pairs: Vec<(Key, Value)>) -> Value {
    let mut table = Table::new();
    for (k, v) in pairs {
        table.insert(k, v);
    }
    Value::CelMap(CelMap::object(Arc::new(table)))
}

fn host(token: u64) -> Value {
    Value::Opaque(Arc::new(Opaque::Host(HostObject {
        runtime_type: Arc::new("example.HostId".to_string()),
        token,
    })))
}

fn seconds(n: i64) -> Value {
    Value::Duration(Duration::new(n, 0).unwrap())
}

#[test]
fn public_scalars_roundtrip() {
    for v in [
        Value::Int(-3),
        Value::UInt(9),
        float(1.5),
        Value::Bool(true),
        Value::Bool(false),
        Value::Null,
        text("hi"),
        Value::Bytes(Arc::new(b"xy".to_vec())),
    ] {
        assert_eq!(roundtrip(&v), v, "{v:?}");
    }
}

fn interned(heap: &mut CelHeap, v: &Value) -> Arc<W_Root> {
    intern_leaf(heap, v).expect("intern").expect("a leaf")
}

#[test]
fn intern_leaf_is_the_prebuilt_for_bool_null_and_small_int() {
    let h = &mut CelHeap::new();
    let place = |w: CelRef| w_place(&w.unwrap());
    assert_eq!(w_place(&interned(h, &Value::Bool(true))), place(new_bool(true)));
    assert_eq!(w_place(&interned(h, &Value::Null)), place(new_null()));
    assert_eq!(w_place(&interned(h, &Value::Int(3))), place(new_int(h, 3)));
    assert!(intern_leaf(h, &text("x")).is_some());
    assert!(intern_leaf(h, &list(vec![Value::Int(1)])).is_some());
    assert!(intern_leaf(h, &Value::UInt(3)).is_some());
    assert!(intern_leaf(h, &float(1.5)).is_some());
    let object = object_map(vec![(Key::from("a"), Value::Int(1))]);
    assert!(intern_leaf(h, &object).is_some());
    let schema = Arc::new(RecordSchema::new(
        vec![Key::from("a")],
        vec![ValueColumn::Scalar { bank: ScalarBank::Int, words: Arc::from([1i64].as_slice()) }],
    ));
    let record = Value::CelMap(CelMap::record(schema, 0));
    assert_eq!(w_kind(&interned(h, &record)), CelKind::CelMap);
    assert_eq!(roundtrip(&record), record);
    let ints = Value::List(ListRef::whole(Arc::new(ListStorage::Ints(vec![1, 2, 3]))));
    assert_eq!(w_kind(&interned(h, &ints)), CelKind::List);
    assert_eq!(roundtrip(&ints), ints);
    assert_eq!(Value::interned_int(h, 3).kind(), CelKind::Int);
    assert_eq!(Value::interned_int(h, 3), Value::Int(3));
    assert_eq!(Value::interned_bool(true), Value::Bool(true));
    assert_eq!(Value::interned_null(), Value::Null);
    assert!(intern_leaf(h, &optional_none()).is_some());
    let int_ty = Value::Opaque(Arc::new(Opaque::Type(TypeValue::Core(CoreType::Int))));
    assert_eq!(w_kind(&interned(h, &int_ty)), CelKind::Type);
    assert_eq!(roundtrip(&int_ty), int_ty);
    assert!(intern_leaf(h, &optional_of(Value::Int(4))).is_some());
    let seven = interned(h, &host(7));
    assert_eq!(w_kind(&seven), CelKind::Opaque);
    assert_eq!(roundtrip(&host(7)), host(7));
    assert!(values_equal(&seven, &seven));
    let also = interned(h, &host(7));
    assert!(values_equal(&seven, &also));
    let other = interned(h, &host(8));
    assert!(!values_equal(&seven, &other));
    assert!(intern_leaf(h, &seconds(1)).is_some());
    let t = Value::Timestamp(Timestamp::new(1_577_836_800, 0, 0).unwrap());
    assert!(intern_leaf(h, &t).is_some());
}

fn sum(h: &mut CelHeap, a: &Value, b: &Value) -> Value {
    let s = &mut ErrorSlot::new();
    let (a, b) = (interned(h, a), interned(h, b));
    let w = match cel_add(h, s, &a, &b) {
        LeafOut::Ref(w) => w,
        LeafOut::Double(BinOp::Add, l, r) => {
            new_double(h, (f64::from_bits(l) + f64::from_bits(r)).to_bits())
        }
        other => panic!("{other:?}"),
    };
    ref_to_value(&w).unwrap()
}

#[test]
fn interned_string_and_list_add_roundtrip() {
    let h = &mut CelHeap::new();
    assert_eq!(sum(h, &text("he"), &text("llo")), text("hello"));
    assert_eq!(
        sum(h, &list(vec![Value::Int(1)]), &list(vec![Value::Int(2)])),
        list(vec![Value::Int(1), Value::Int(2)])
    );
    assert_eq!(sum(h, &Value::UInt(2), &Value::UInt(3)), Value::UInt(5));
    assert_eq!(sum(h, &float(1.5), &float(2.25)), float(3.75));
    let one = || object_map(vec![(Key::from("k"), Value::Int(1))]);
    let (ma, mb) = (interned(h, &one()), interned(h, &one()));
    assert_eq!(ref_to_value(&cel_equals(&ma, &mb)).unwrap(), Value::Bool(true));
    let (none, also) = (interned(h, &optional_none()), interned(h, &optional_none()));
    assert_eq!(ref_to_value(&cel_equals(&none, &also)).unwrap(), Value::Bool(true));
    assert_eq!(sum(h, &seconds(1), &seconds(2)), seconds(3));
}

#[test]
fn public_list_and_optional_roundtrip() {
    let l = list(vec![Value::Int(1), Value::Int(2)]);
    assert_eq!(roundtrip(&l), l);
    assert_eq!(roundtrip(&optional_none()), optional_none());
    let some = optional_of(Value::Int(4));
    assert_eq!(roundtrip(&some), some);
}

#[test]
fn public_map_roundtrip() {
    let empty = object_map(vec![]);
    assert_eq!(roundtrip(&empty), empty);
    let object = object_map(vec![
        (Key::Int(1), text("one")),
        (Key::Uint(2), Value::Int(2)),
        (Key::Bool(true), Value::Bool(false)),
        (Key::from("k"), Value::UInt(3)),
    ]);
    assert_eq!(roundtrip(&object), object);
    let schema = Arc::new(RecordSchema::new(
        vec![Key::from("a"), Key::Int(7)],
        vec![
            ValueColumn::Scalar { bank: ScalarBank::Int, words: Arc::from([42i64].as_slice()) },
            ValueColumn::Scalar { bank: ScalarBank::Bool, words: Arc::from([1i64].as_slice()) },
        ],
    ));
    let record = Value::CelMap(CelMap::record(schema, 0));
    assert_eq!(roundtrip(&record), record);
}

fn same_struct(a: &Value, b: &Value) {
    match (a, b) {
        (Value::Struct(a), Value::Struct(b)) => {
            assert_eq!(a.name(), b.name());
            assert_eq!(a.field_values(), b.field_values());
        }
        other => panic!("expected structs: {other:?}"),
    }
}

#[test]
fn public_struct_roundtrip() {
    let mut s = CelStruct::new("cel.Problem".to_string());
    s.add_field_value("answer".to_string(), Value::Int(42));
    s.add_field_value("solved".to_string(), Value::Bool(true));
    let v = Value::Struct(Arc::new(s));
    same_struct(&v, &roundtrip(&v));
    let empty = Value::Struct(Arc::new(CelStruct::new("cel.Empty".to_string())));
    same_struct(&empty, &roundtrip(&empty));
}

#[test]
fn public_temporal_roundtrip() {
    let d = seconds(3);
    assert_eq!(roundtrip(&d), d);
    let ts = Value::Timestamp(Timestamp::new(1_700_000_000, 0, 3600).unwrap());
    assert_eq!(roundtrip(&ts), ts);
    match roundtrip(&ts) {
        Value::Timestamp(t) => assert_eq!(t.offset(), 3600),
        other => panic!("{other:?}"),
    }
}

#[test]
fn from_arc_string_still_builds_the_public_value() {
    let v: Value = Arc::new("drop-in".to_string()).into();
    assert_eq!(v, text("drop-in"));
    assert_eq!(roundtrip(&v), v);
}

#[test]
fn keys_roundtrip() {
    let h = &mut CelHeap::new();
    for k in [Key::Int(-1), Key::Uint(1), Key::Bool(true), Key::from("k")] {
        let w = key_to_ref(h, &k);
        assert_eq!(ref_to_key(&w).unwrap(), k);
    }
    assert!(ref_to_key(&new_null()).is_err());
    assert!(ref_to_value(&None).is_err());
}

#[test]
fn constants_are_interned_into_the_pool() {
    let mut pool = ConstPool::new();
    let a = pool.intern(&text("const"));
    let b = pool.intern(&text("const"));
    assert!(matches!(w_place(a.as_ref().unwrap()), Place::Constant(_, _)));
    assert!(!same_object(&a, &b));
    assert_eq!(ref_to_value(&a).unwrap(), text("const"));
    assert!(pool.intern(&Value::Bool(true)).is_none());
    assert!(pool.intern(&Value::Int(256)).is_none());
    assert!(pool.intern(&Value::Int(257)).is_some());
    assert!(pool.intern(&list(vec![])).is_none());
}
