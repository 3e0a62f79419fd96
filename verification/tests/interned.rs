use cel::access::{optional_none, optional_of};
use cel::column::{RecordSchema, ScalarBank, ValueColumn};
use cel::error::ExecutionError;
use cel::key::Key;
use cel::list::{ListRef, ListStorage};
use cel::map::CelMap;
use cel::model::BinOp;
use cel::ops::{binary_values, Outcome};
use cel::runtime::binop::{cel_add, cel_div, cel_sub, LeafOut};
use cel::runtime::convert::{intern_leaf, ref_to_value};
use cel::runtime::error::{has_error, CelErrCode, ErrorSlot};
use cel::runtime::heap::CelHeap;
use cel::runtime::interned::{
    interned_binop_result, interned_contains, interned_list_eq, interned_list_get,
    interned_map_lookup_string, interned_opt_select, raised_to_execution,
};
use cel::runtime::object::{new_bool, new_int, new_null, same_object, W_Root};
use cel::time::{Duration, Timestamp};
use cel::value::Value;
use std::sync::Arc;

fn leaf(h: &mut CelHeap, v: &Value) -> Arc<W_Root> {
    intern_leaf(h, v).unwrap().unwrap()
}

fn ints(v: Vec<i64>) -> Value {
    Value::List(ListRef::whole(Arc::new(ListStorage::Ints(v))))
}

fn record() -> Value {
    let schema = Arc::new(RecordSchema::new(
        vec![Key::from("a"), Key::from("b")],
        vec![
            ValueColumn::Scalar { bank: ScalarBank::Int, words: Arc::from([1i64, 2].as_slice()) },
            ValueColumn::Scalar { bank: ScalarBank::UInt, words: Arc::from([3i64, 4].as_slice()) },
        ],
    ));
    Value::CelMap(CelMap::record(schema, 1))
}

#[test]
fn elements_are_read_in_place() {
    let h = &mut CelHeap::new();
    let objects = Value::from(vec![Value::from("x"), Value::Null]);
    let window = Value::List(ListRef::window(
        Arc::new(ListStorage::Object(vec![Value::Int(1), Value::Int(2), Value::Int(3)])),
        1,
        2,
    ));
    for (v, i, want) in [
        (&ints(vec![5, 6]), 1, Some(Value::Int(6))),
        (&ints(vec![5, 6]), 2, None),
        (&ints(vec![5, 6]), -1, None),
        (&objects, 0, Some(Value::from("x"))),
        (&window, 0, Some(Value::Int(2))),
        (&window, 2, None),
    ] {
        let w = leaf(h, v);
        match &*w {
            W_Root::List(l) => {
                let got = interned_list_get(h, l, i).map(|r| ref_to_value(&r).unwrap());
                assert_eq!(got, want);
            }
            other => panic!("{other:?}"),
        }
    }
}

#[test]
fn results_are_prebuilt_or_made_last() {
    let h = &mut CelHeap::new();
    let slot = &mut ErrorSlot::new();
    let one = leaf(h, &Value::Int(1));
    let two = leaf(h, &Value::Int(2));
    let sum = match cel_add(h, slot, &one, &two) {
        LeafOut::Ref(r) => r,
        other => panic!("{other:?}"),
    };
    assert!(same_object(&sum, &new_int(h, 3)));
    let before = h.allocated_objects();
    let big = leaf(h, &Value::Int(1 << 40));
    assert_eq!(h.allocated_objects(), before + 1);
    assert!(matches!(cel_add(h, slot, &big, &one), LeafOut::Ref(Some(_))));
    assert_eq!(h.allocated_objects(), before + 2);
    assert!(same_object(&Some(leaf(h, &Value::Bool(true))), &new_bool(true)));
    assert!(same_object(&intern_leaf(h, &Value::Null).unwrap(), &new_null()));
    let shared = Value::Interned(big.clone());
    assert!(same_object(&intern_leaf(h, &shared).unwrap(), &Some(big)));
    assert_eq!(h.allocated_objects(), before + 2);
    // What a container refers to is handed out, not made again.
    let objects = leaf(h, &Value::from(vec![Value::from("x"), Value::UInt(9)]));
    let map = leaf(h, &Value::CelMap(CelMap::ordered(vec![(Key::from("b"), Value::UInt(4))])));
    let before = h.allocated_objects();
    if let (W_Root::List(l), W_Root::CelMap(m)) = (&*objects, &*map) {
        let a = interned_list_get(h, l, 1).unwrap();
        assert!(same_object(&a, &interned_list_get(h, l, 1).unwrap()));
        let b = interned_map_lookup_string(h, m, "b").unwrap();
        assert!(same_object(&b, &interned_map_lookup_string(h, m, "b").unwrap()));
        assert!(!same_object(&a, &b));
    } else {
        panic!("a list and a map");
    }
    assert_eq!(h.allocated_objects(), before);
}

#[test]
fn string_keys_are_found_in_place() {
    let h = &mut CelHeap::new();
    let table = Value::CelMap(CelMap::ordered(vec![(Key::from("b"), Value::UInt(4))]));
    for m in [table, record()] {
        let w = leaf(h, &m);
        match &*w {
            W_Root::CelMap(m) => {
                let b = interned_map_lookup_string(h, m, "b").unwrap();
                assert_eq!(ref_to_value(&b).unwrap(), Value::UInt(4));
                assert!(interned_map_lookup_string(h, m, "z").is_none());
            }
            other => panic!("{other:?}"),
        }
    }
}

#[test]
fn int_lists_are_compared_in_place() {
    let h = &mut CelHeap::new();
    let a = leaf(h, &ints(vec![1, 2]));
    let b = leaf(h, &Value::from(vec![Value::UInt(1), Value::Int(2)]));
    let c = leaf(h, &ints(vec![1, 3]));
    let n = leaf(h, &Value::Null);
    assert_eq!(interned_list_eq(&a, &b), Some(true));
    assert_eq!(interned_list_eq(&b, &a), Some(true));
    assert_eq!(interned_list_eq(&a, &c), Some(false));
    assert_eq!(interned_list_eq(&b, &b), None);
    assert_eq!(interned_list_eq(&a, &n), None);
}

#[test]
fn membership_is_decided_in_place() {
    let h = &mut CelHeap::new();
    let l = leaf(h, &ints(vec![1, 2]));
    let two = leaf(h, &Value::Int(2));
    let s = leaf(h, &Value::from("a"));
    let m = leaf(h, &record());
    assert_eq!(interned_contains(&l, &two), Ok(true));
    assert_eq!(interned_contains(&l, &s), Ok(false));
    let one_u = leaf(h, &Value::UInt(1));
    assert_eq!(interned_contains(&l, &one_u), Ok(false));
    let boxed = leaf(h, &Value::from(vec![Value::Int(1), Value::Null]));
    assert_eq!(interned_contains(&boxed, &one_u), Ok(true));
    let keyed = leaf(h, &Value::CelMap(CelMap::ordered(vec![(Key::Int(1), Value::Null)])));
    assert_eq!(interned_contains(&keyed, &one_u), Ok(false));
    assert_eq!(interned_contains(&m, &s), Ok(true));
    assert_eq!(interned_contains(&m, &two), Ok(false));
    assert!(matches!(
        interned_contains(&m, &l),
        Err(ExecutionError::UnsupportedKeyType(_))
    ));
    assert_eq!(interned_contains(&two, &two), Err(ExecutionError::NoSuchOverload));
}

#[test]
fn optional_selection_on_leaves() {
    let h = &mut CelHeap::new();
    let m = leaf(h, &record());
    let some = leaf(h, &optional_of(record()));
    let none = leaf(h, &optional_none());
    let n = leaf(h, &Value::Int(1));
    let get = |h: &mut CelHeap, w: &Arc<W_Root>, name: &str| {
        interned_opt_select(h, w, name).map(|r| ref_to_value(&r).unwrap())
    };
    assert_eq!(get(h, &m, "a"), Ok(optional_of(Value::Int(2))));
    assert_eq!(
        get(h, &m, "z"),
        Err(ExecutionError::NoSuchKey(Arc::new("z".to_string())))
    );
    assert_eq!(get(h, &some, "a"), Ok(optional_of(Value::Int(2))));
    assert_eq!(get(h, &some, "z"), Ok(optional_of(optional_none())));
    assert_eq!(get(h, &none, "a"), Ok(optional_none()));
    assert_eq!(get(h, &n, "a"), Err(ExecutionError::NoSuchOverload));
}

#[test]
fn raised_errors_become_the_errors_of_expressions() {
    let one = || Value::Int(1);
    let u = || Value::UInt(1);
    assert_eq!(
        raised_to_execution(CelErrCode::Overflow, "mul", one(), one()),
        ExecutionError::Overflow("mul", one(), one())
    );
    assert_eq!(
        raised_to_execution(CelErrCode::DivisionByZero, "div", one(), one()),
        ExecutionError::DivisionByZero(one())
    );
    assert_eq!(
        raised_to_execution(CelErrCode::RemainderByZero, "rem", one(), one()),
        ExecutionError::RemainderByZero(one())
    );
    assert_eq!(
        raised_to_execution(CelErrCode::UnsupportedBinaryOperator, "add", u(), one()),
        ExecutionError::UnsupportedBinaryOperator("add", u(), one())
    );
    assert_eq!(
        raised_to_execution(CelErrCode::UnsupportedBinaryOperator, "add", one(), u()),
        ExecutionError::NoSuchOverload
    );
    assert_eq!(
        raised_to_execution(CelErrCode::NoSuchOverload, "negate", u(), one()),
        ExecutionError::NoSuchOverload
    );
    assert_eq!(
        raised_to_execution(CelErrCode::NoneDereference, "value", u(), one()),
        ExecutionError::function_error("value", "optional.none() dereference")
    );
}

#[test]
fn arithmetic_on_leaves_comes_to_what_it_does_on_values() {
    type Op = fn(&mut CelHeap, &mut ErrorSlot, &Arc<W_Root>, &Arc<W_Root>) -> LeafOut;
    let ops: [(Op, BinOp); 3] =
        [(cel_add, BinOp::Add), (cel_sub, BinOp::Sub), (cel_div, BinOp::Div)];
    let values = [
        Value::Int(5),
        Value::Int(0),
        Value::Int(i64::MAX),
        Value::UInt(7),
        Value::from("s"),
        Value::from(vec![Value::Int(1)]),
        Value::Duration(Duration::nanoseconds(i64::MAX)),
        Value::Timestamp(Timestamp::utc_from_nanoseconds(i64::MAX)),
        Value::Bool(true),
    ];
    for (on_leaves, op) in ops {
        for l in &values {
            for r in &values {
                let h = &mut CelHeap::new();
                let s = &mut ErrorSlot::new();
                let (a, b) = (leaf(h, l), leaf(h, r));
                let out = on_leaves(h, s, &a, &b);
                let got = interned_binop_result(s, out);
                assert!(!has_error(s));
                match (got, binary_values(op, l.clone(), r.clone())) {
                    (Outcome::Done(x), Outcome::Done(y)) => assert_eq!(x, y, "{l:?} {op:?} {r:?}"),
                    other => panic!("{other:?}"),
                }
            }
        }
    }
}
