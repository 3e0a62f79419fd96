use bytes::Bytes;
use cel::access::{
    as_bool, expect_optional, key_display, optional_none, optional_of, optional_view,
    value_contains, value_field, value_has_field, value_index, value_iter, value_key, value_len,
    OptView,
};
use cel::compare::{compare_values, value_order};
use cel::double::{
    compare_doubles, double_from_i64, double_from_u64, double_is_nan, double_is_zero, negate_double,
    order_i64, order_u64, Order,
};
use cel::error::ExecutionError;
use cel::key::{map_get_by_key, map_has_exact_key, AsKeyRef, Key, KeyRef};
use cel::map::{try_build_map, CelMap, MapEntries, MapStorage, Table};
use cel::model::{BinOp, CmpOp, CoreType, ValueType};
use cel::ops::{binary_values, binary_values_ref, value_negate, Outcome};
use cel::runtime::convert::intern_leaf;
use cel::runtime::heap::CelHeap;
use cel::text::{compare_bytes, compare_strs, i64_text, u64_text};
use cel::time::{
    Duration, Timestamp, MAX_INSTANT_SECS, MAX_TIMESTAMP_SECS, MIN_INSTANT_SECS, MIN_TIMESTAMP_SECS,
};
use cel::value::{CelStruct, Opaque, OptionalValue, TypeValue, Value};
use std::sync::Arc;

fn done(out: Outcome) -> Result<Value, ExecutionError> {
    match out {
        Outcome::Done(r) => r,
        Outcome::Double(op, l, r) => panic!("{op:?} on doubles {l} {r}"),
    }
}

fn span(secs: i64, nanos: u32) -> Duration {
    Duration::new(secs, nanos).unwrap()
}

// -- durations and timestamps ------------------------------------------------

#[test]
fn durations_add_and_subtract() {
    let a = span(1, 700_000_000);
    let b = span(2, 600_000_000);
    let sum = a.checked_add(b).unwrap();
    assert_eq!((sum.whole_seconds(), sum.subsec_nanos()), (4, 300_000_000));
    let diff = a.checked_sub(b).unwrap();
    assert_eq!(diff.num_nanoseconds(), Some(-900_000_000));
    assert_eq!(diff.negate().num_nanoseconds(), Some(900_000_000));
    assert_eq!(Duration::nanoseconds(-1).num_nanoseconds(), Some(-1));
    assert!(Duration::nanoseconds(0).is_zero());
    assert_eq!(a.order(b), Order::Less);
    assert_eq!(a.order(a), Order::Equal);
}

#[test]
fn durations_end_at_the_milliseconds_of_a_word() {
    let max = span(i64::MAX / 1000, 807_000_000);
    assert!(Duration::new(i64::MAX / 1000, 807_000_001).is_none());
    assert!(max.checked_add(Duration::nanoseconds(1)).is_none());
    assert!(max.checked_add(Duration::nanoseconds(0)).is_some());
    assert_eq!(max.num_nanoseconds(), None);
    let min = max.negate();
    assert!(min.checked_sub(Duration::nanoseconds(1)).is_none());
    assert_eq!(min.checked_add(max).unwrap().num_nanoseconds(), Some(0));
    assert_eq!(Duration::nanoseconds(i64::MIN).num_nanoseconds(), Some(i64::MIN));
    let below = Duration::nanoseconds(i64::MIN).checked_sub(Duration::nanoseconds(1)).unwrap();
    assert_eq!(below.num_nanoseconds(), None);
}

#[test]
fn timestamps_move_and_keep_their_offset() {
    let t = Timestamp::new(100, 250_000_000, 3600).unwrap();
    let later = t.checked_add(span(1, 900_000_000)).unwrap();
    assert_eq!((later.whole_seconds(), later.subsec_nanos()), (102, 150_000_000));
    assert_eq!(later.offset(), 3600);
    let earlier = t.checked_sub(span(101, 0)).unwrap();
    assert_eq!((earlier.whole_seconds(), earlier.subsec_nanos()), (-1, 250_000_000));
    assert_eq!(later.since(t).num_nanoseconds(), Some(1_900_000_000));
    assert_eq!(t.since(later).num_nanoseconds(), Some(-1_900_000_000));
    assert_eq!(t.order(later), Order::Less);
    let neg = Timestamp::utc_from_nanoseconds(-1);
    assert_eq!((neg.whole_seconds(), neg.subsec_nanos()), (-1, 999_999_999));
    assert_eq!(neg.num_nanoseconds(), Some(-1));
    assert_eq!(
        Timestamp::utc_from_nanoseconds(i64::MIN).num_nanoseconds(),
        Some(i64::MIN)
    );
}

#[test]
fn timestamps_may_lie_in_a_leap_second() {
    let at = |secs: i64, nanos: u32| Timestamp::new(secs, nanos, 0);
    // 2016-12-31T23:59:60.5Z, and the midnight after it.
    let (second, midnight) = (1_483_228_799, 1_483_228_800);
    let leap = at(second, 1_500_000_000).unwrap();
    assert_eq!((leap.whole_seconds(), leap.subsec_nanos()), (second, 1_500_000_000));
    assert!(at(second, 2_000_000_000).is_none());
    assert!(at(second - 1, 1_500_000_000).is_none());
    assert!(at(-1, 1_000_000_000).is_some());
    // It comes after its minute and before the next one.
    assert_eq!(leap.order(at(second, 999_999_999).unwrap()), Order::Greater);
    assert_eq!(leap.order(at(midnight, 0).unwrap()), Order::Less);
    assert_eq!(leap.order(leap), Order::Equal);
    assert_ne!(Value::Timestamp(leap), Value::Timestamp(at(midnight, 500_000_000).unwrap()));
    // Moving within it, out of it forwards, and out of it backwards.
    let moved = |nanos: i64| leap.checked_add(Duration::nanoseconds(nanos)).unwrap();
    assert_eq!(moved(499_999_999), at(second, 1_999_999_999).unwrap());
    assert_eq!(moved(500_000_000), at(midnight, 0).unwrap());
    assert_eq!(moved(1_000_000_000), at(midnight, 500_000_000).unwrap());
    assert_eq!(moved(-500_000_000), at(second, 1_000_000_000).unwrap());
    assert_eq!(moved(-600_000_000), at(second, 900_000_000).unwrap());
    assert_eq!(moved(-1_000_000_000), at(second, 500_000_000).unwrap());
    let back = |nanos: i64| leap.checked_sub(Duration::nanoseconds(nanos)).unwrap();
    assert_eq!(back(600_000_000), moved(-600_000_000));
    assert_eq!(back(-500_000_000), moved(500_000_000));
    // 2016-12-31T12:00:60.5Z is half a second before the next minute.
    let noon = at(1_483_185_659, 1_500_000_000).unwrap();
    let next = at(1_483_185_660, 0).unwrap();
    assert_eq!(next.since(noon).num_nanoseconds(), Some(500_000_000));
    assert_eq!(noon.since(next).num_nanoseconds(), Some(-500_000_000));
    assert_eq!(at(midnight, 0).unwrap().since(leap).num_nanoseconds(), Some(-500_000_000));
    assert_eq!(leap.since(noon).num_nanoseconds(), Some(43_141_000_000_000));
    assert_eq!(leap.num_nanoseconds(), Some(1_483_228_800_500_000_000));
    // No result of arithmetic lies after the last second of the year 9999.
    let end = Value::Timestamp(at(253_402_300_799, 1_000_000_000).unwrap());
    let none = Value::Duration(Duration::nanoseconds(0));
    let out = binary_values(BinOp::Add, end.clone(), none.clone());
    assert!(matches!(
        out,
        Outcome::Done(Err(ExecutionError::Overflow("add", l, r))) if l == end && r == none
    ));
    // A leaf keeps the count of nanoseconds alone.
    let mut heap = CelHeap::new();
    let leaf = Value::Interned(
        intern_leaf(&mut heap, &Value::Timestamp(leap)).unwrap().unwrap(),
    );
    assert_eq!(leaf.unpack(), Value::Timestamp(at(midnight, 500_000_000).unwrap()));
    assert_eq!(leaf, Value::Timestamp(leap));
}

#[test]
fn timestamps_end_where_the_calendar_does() {
    assert!(Timestamp::new(MIN_INSTANT_SECS - 1, 0, 0).is_none());
    assert!(Timestamp::new(MAX_INSTANT_SECS + 1, 0, 0).is_none());
    let last = Timestamp::new(MAX_INSTANT_SECS, 999_999_999, 0).unwrap();
    assert!(last.checked_add(Duration::nanoseconds(1)).is_none());
    assert_eq!(last.num_nanoseconds(), None);
    let first = Timestamp::new(MIN_INSTANT_SECS, 0, 0).unwrap();
    assert!(first.checked_sub(Duration::nanoseconds(1)).is_none());
    assert_eq!(
        last.since(first).whole_seconds(),
        MAX_INSTANT_SECS - MIN_INSTANT_SECS
    );
    assert!(!last.is_within_limits());
}

#[test]
fn timestamp_arithmetic_stops_at_the_years_one_and_9999() {
    let last = Timestamp::new(MAX_TIMESTAMP_SECS, 999_999_999, 0).unwrap();
    let first = Timestamp::new(MIN_TIMESTAMP_SECS, 0, 0).unwrap();
    assert!(last.is_within_limits() && first.is_within_limits());
    let ns = Value::Duration(Duration::nanoseconds(1));
    let r = done(binary_values(BinOp::Add, Value::Timestamp(last), ns.clone()));
    assert_eq!(
        r,
        Err(ExecutionError::Overflow("add", Value::Timestamp(last), ns.clone()))
    );
    let r = done(binary_values(BinOp::Sub, Value::Timestamp(first), ns.clone()));
    assert_eq!(
        r,
        Err(ExecutionError::Overflow("sub", Value::Timestamp(first), ns.clone()))
    );
    let r = done(binary_values(BinOp::Sub, Value::Timestamp(last), ns.clone())).unwrap();
    match r {
        Value::Timestamp(t) => assert_eq!(t.subsec_nanos(), 999_999_998),
        other => panic!("{other:?}"),
    }
    let r = done(binary_values(BinOp::Sub, Value::Timestamp(last), Value::Timestamp(first)));
    match r.unwrap() {
        Value::Duration(d) => {
            assert_eq!(d.whole_seconds(), MAX_TIMESTAMP_SECS - MIN_TIMESTAMP_SECS)
        }
        other => panic!("{other:?}"),
    }
}

// -- doubles by their bits ---------------------------------------------------

#[test]
fn doubles_order_as_numbers() {
    let samples = [
        f64::NEG_INFINITY,
        -2.5,
        -0.0,
        0.0,
        1.0e-320,
        2.5,
        f64::INFINITY,
        f64::NAN,
    ];
    for a in samples {
        for b in samples {
            let want = a.partial_cmp(&b).map(|o| match o {
                std::cmp::Ordering::Less => Order::Less,
                std::cmp::Ordering::Equal => Order::Equal,
                std::cmp::Ordering::Greater => Order::Greater,
            });
            assert_eq!(compare_doubles(a.to_bits(), b.to_bits()), want, "{a} {b}");
        }
        assert_eq!(double_is_nan(a.to_bits()), a.is_nan());
        assert_eq!(double_is_zero(a.to_bits()), a == 0.0);
        assert_eq!(negate_double(a.to_bits()), (-a).to_bits());
        assert_eq!(negate_double(negate_double(a.to_bits())), a.to_bits());
    }
}

#[test]
fn integers_round_to_the_nearest_double() {
    for i in [0i64, 1, -1, 3, (1 << 53) + 1, (1 << 53) + 3, i64::MAX, i64::MIN, -12345] {
        assert_eq!(double_from_i64(i), (i as f64).to_bits(), "{i}");
    }
    for u in [0u64, 1, (1 << 63) + 1025, u64::MAX, u64::MAX - 1024, (1 << 54) + 2] {
        assert_eq!(double_from_u64(u), (u as f64).to_bits(), "{u}");
    }
    assert_eq!(order_i64(-1, 1), Order::Less);
    assert_eq!(order_u64(2, 1), Order::Greater);
    assert_eq!(Order::Less.reverse(), Order::Greater);
}

// -- text --------------------------------------------------------------------

#[test]
fn text_orders_by_its_bytes() {
    assert_eq!(compare_strs("ab", "b"), Order::Less);
    assert_eq!(compare_strs("ab", "ab"), Order::Equal);
    assert_eq!(compare_strs("abc", "ab"), Order::Greater);
    assert_eq!(compare_strs("\u{e9}", "z"), Order::Greater);
    assert_eq!(compare_bytes(&[1, 2], &[1, 3]), Order::Less);
    assert_eq!(compare_bytes(&[], &[0]), Order::Less);
    assert_eq!(i64_text(i64::MIN), "-9223372036854775808");
    assert_eq!(i64_text(0), "0");
    assert_eq!(u64_text(u64::MAX), "18446744073709551615");
}

// -- keys and maps -----------------------------------------------------------

#[test]
fn a_number_finds_its_twin_after_its_own_type() {
    let table = CelMap::ordered(vec![
        (Key::Int(1), Value::from("int")),
        (Key::Uint(1), Value::from("uint")),
        (Key::Uint(2), Value::from("two")),
    ]);
    assert_eq!(table.get(&Key::Int(1)), Some(Value::from("int")));
    assert_eq!(table.get(&Key::Uint(1)), Some(Value::from("uint")));
    assert_eq!(table.get(&Key::Int(2)), Some(Value::from("two")));
    assert_eq!(table.get(&Key::Int(-1)), None);
    assert!(table.contains_key(&Key::Uint(2)));
    assert!(!table.contains_key(&Key::Int(2)));
    assert_eq!(Key::Int(1).as_keyref().other_integer().map(|k| k.same(KeyRef::Uint(1))), Some(true));
    assert!(Key::Int(-1).as_keyref().other_integer().is_none());
    assert!(Key::from(true).as_keyref().other_integer().is_none());
    assert_ne!(Key::Int(1), Key::Uint(1));
}

#[test]
fn a_lookup_asks_for_the_exact_key_first() {
    let exact = |k: KeyRef<'_>| if k.same(KeyRef::Uint(5)) { Some("five") } else { None };
    assert_eq!(map_get_by_key(exact, KeyRef::Int(5)), Some("five"));
    assert_eq!(map_get_by_key(exact, KeyRef::Int(6)), None);
    let has = |k: KeyRef<'_>| k.same(KeyRef::Uint(5));
    assert!(map_has_exact_key(has, KeyRef::Uint(5)));
    assert!(!map_has_exact_key(has, KeyRef::Int(5)));
}

#[test]
fn a_table_keeps_its_order_and_its_last_value() {
    let mut t = Table::new();
    t.insert(Key::from("b"), Value::Int(1));
    t.insert(Key::from("a"), Value::Int(2));
    t.insert(Key::from("b"), Value::Int(3));
    assert_eq!(t.len(), 2);
    assert_eq!(t.entry(0), (&Key::from("b"), &Value::Int(3)));
    assert_eq!(t.entry(1), (&Key::from("a"), &Value::Int(2)));
    assert_eq!(t.position(KeyRef::String("a")), Some(1));
    assert_eq!(t.get(KeyRef::String("c")), None);
    let m = CelMap::filled(t.copy(), 3);
    let o = CelMap::object(Arc::new(t));
    assert_eq!(m, o);
    assert!(!m.ptr_eq(&o));
    assert!(o.ptr_eq(&o.clone()));
    assert_eq!(m.to_table().len(), 2);
}

#[test]
fn maps_of_one_content_are_equal_whatever_holds_them() {
    let pairs = || vec![(Key::Int(1), Value::UInt(7)), (Key::from("k"), Value::Null)];
    let small = CelMap::entries(MapEntries::new(pairs()));
    let mut t = Table::new();
    for (k, v) in pairs().into_iter().rev() {
        t.insert(k, v);
    }
    let object = CelMap::object(Arc::new(t));
    assert!(matches!(small.storage(), MapStorage::Entries(_)));
    assert!(matches!(object.storage(), MapStorage::Object(_)));
    assert_eq!(small, object);
    assert_eq!(object, small);
    let other = CelMap::ordered(vec![(Key::Int(1), Value::UInt(7))]);
    assert_ne!(small, other);
    assert_ne!(other, small);
    let twin = CelMap::ordered(vec![(Key::Uint(1), Value::UInt(7))]);
    assert_ne!(other, twin);
}

#[test]
fn building_a_map_skips_and_fails() {
    let write = |i: usize| {
        Ok::<Option<(Key, Value)>, ()>(if i == 1 {
            None
        } else {
            Some((Key::Int(i as i64), Value::Bool(true)))
        })
    };
    let m = try_build_map(3, write).unwrap();
    assert_eq!(m.len(), 2);
    assert!(m.contains_key(&Key::Int(2)));
    assert!(!m.contains_key(&Key::Int(1)));
    let fail = |i: usize| {
        if i == 0 {
            Ok(Some((Key::Int(0), Value::Null)))
        } else {
            Err("fail")
        }
    };
    assert_eq!(try_build_map(2, fail).err(), Some("fail"));
    let many = |i: usize| Ok::<Option<(Key, Value)>, ()>(Some((Key::Uint(i as u64), Value::Null)));
    assert!(matches!(try_build_map(100, many).unwrap().storage(), MapStorage::Object(_)));
    assert!(matches!(try_build_map(8, many).unwrap().storage(), MapStorage::Entries(_)));
    let few = |i: usize| {
        Ok::<Option<(Key, Value)>, ()>(if i == 0 {
            None
        } else {
            Some((Key::Int(i as i64 % 2), Value::Int(i as i64)))
        })
    };
    let nine = try_build_map(9, few).unwrap();
    assert_eq!(nine.len(), 2);
    assert!(matches!(nine.storage(), MapStorage::Object(_)));
    let eight = try_build_map(8, few).unwrap();
    assert_eq!(eight.len(), 2);
    assert!(matches!(eight.storage(), MapStorage::Entries(_)));
}

#[test]
fn what_can_be_a_key() {
    assert_eq!(value_key(Value::from("k")).unwrap(), Key::from("k"));
    assert_eq!(value_key(Value::UInt(1)).unwrap(), Key::Uint(1));
    assert_eq!(
        value_key(Value::Null).err(),
        Some(ExecutionError::UnsupportedKeyType(Value::Null))
    );
    assert_eq!(key_display(&Key::Int(-4)), "-4");
    assert_eq!(key_display(&Key::Uint(4)), "4");
    assert_eq!(key_display(&Key::from(false)), "false");
    assert_eq!(key_display(&Key::from("x")), "x");
}

// -- values ------------------------------------------------------------------

#[test]
fn bytes_are_copied_out_of_their_buffer() {
    let b = Bytes::from_static(b"\x01\x02\x00");
    assert_eq!(Value::from(&b), Value::Bytes(Arc::new(vec![1, 2, 0])));
    assert_eq!(Value::from(b.slice(1..2)), Value::from(vec![2u8]));
}

#[test]
fn numbers_compare_across_types() {
    let f = |x: f64| Value::Float(x.to_bits());
    assert_eq!(Value::Int(1), Value::UInt(1));
    assert_eq!(Value::UInt(1), f(1.0));
    assert_ne!(Value::Int(-1), Value::UInt(u64::MAX));
    assert_ne!(f(f64::NAN), f(f64::NAN));
    assert_eq!(f(0.0), f(-0.0));
    assert_eq!(value_order(&Value::Int(-1), &Value::UInt(0)), Some(Order::Less));
    assert_eq!(value_order(&Value::UInt(u64::MAX), &Value::Int(i64::MAX)), Some(Order::Greater));
    assert_eq!(value_order(&Value::Null, &Value::Null), Some(Order::Equal));
    assert_eq!(
        compare_values(CmpOp::Less, &Value::Null, &Value::Null),
        Err(ExecutionError::NoSuchOverload)
    );
    assert_eq!(
        compare_values(CmpOp::GreaterEquals, &Value::from("b"), &Value::from("a")),
        Ok(Value::Bool(true))
    );
}

#[test]
fn structs_are_equal_to_nothing() {
    let s = Value::Struct(Arc::new(CelStruct::new("T".to_string())));
    assert_ne!(s, s.clone());
}

#[test]
fn zero_values() {
    assert!(Value::Int(0).is_zero());
    assert!(Value::from("").is_zero());
    assert!(Value::from(Vec::<Value>::new()).is_zero());
    assert!(Value::CelMap(CelMap::ordered(vec![])).is_zero());
    assert!(Value::Null.is_zero());
    assert!(Value::Bool(false).is_zero());
    assert!(Value::Float((-0.0f64).to_bits()).is_zero());
    assert!(Value::Duration(Duration::nanoseconds(0)).is_zero());
    assert!(!Value::UInt(1).is_zero());
}

#[test]
fn lookups_by_index_and_field() {
    let list = Value::from(vec![Value::Int(10), Value::Int(20)]);
    assert_eq!(value_index(&list, &Value::Int(1)), Ok(Value::Int(20)));
    assert_eq!(
        value_index(&list, &Value::UInt(2)),
        Err(ExecutionError::IndexOutOfBounds(Value::UInt(2)))
    );
    let map = Value::CelMap(CelMap::ordered(vec![(Key::from("a"), Value::Int(1))]));
    assert_eq!(value_field(&map, "a"), Ok(Value::Int(1)));
    assert_eq!(
        value_field(&map, "b"),
        Err(ExecutionError::NoSuchKey(Arc::new("b".to_string())))
    );
    assert_eq!(value_has_field(&map, "b"), Ok(Value::Bool(false)));
    assert_eq!(
        value_index(&Value::Int(1), &Value::Int(0)),
        Err(ExecutionError::NoSuchOverload)
    );
    let s = Value::Struct(Arc::new(CelStruct::new("T".to_string())));
    assert!(matches!(
        value_index(&s, &Value::Int(0)),
        Err(ExecutionError::UnsupportedIndex(Value::Int(0), Value::Struct(_)))
    ));
    assert_eq!(
        value_index(&map, &Value::Null),
        Err(ExecutionError::UnsupportedKeyType(Value::Null))
    );
    assert_eq!(value_contains(&list, &Value::UInt(10)), Ok(true));
    assert_eq!(value_contains(&map, &Value::from("a")), Ok(true));
    assert_eq!(
        value_contains(&Value::Int(1), &Value::Int(1)),
        Err(ExecutionError::NoSuchOverload)
    );
    assert_eq!(value_iter(&map), Ok(vec![Value::from("a")]));
    assert_eq!(value_len(&list), Some(2));
    assert_eq!(value_len(&Value::Int(1)), None);
}

#[test]
fn optionals_are_seen_through() {
    let o = optional_of(Value::Int(4));
    assert!(matches!(optional_view(&o), OptView::Present(Value::Int(4))));
    assert!(matches!(optional_view(&optional_none()), OptView::Empty));
    assert!(matches!(optional_view(&Value::Int(4)), OptView::Plain));
    assert_eq!(expect_optional(&o).unwrap().value(), Some(&Value::Int(4)));
    assert!(expect_optional(&Value::Int(4)).is_err());
    let back: Option<Value> = OptionalValue::of(Value::Int(4)).into();
    assert_eq!(back, Some(Value::Int(4)));
    assert_eq!(Value::from(None::<Value>), Value::Null);
    assert_eq!(Value::from(Some(Value::Int(1))), Value::Int(1));
    assert_eq!(as_bool(&Value::Bool(true)), Some(true));
    assert_eq!(as_bool(&Value::Int(1)), None);
}

#[test]
fn operators_report_what_they_refuse() {
    assert_eq!(
        done(binary_values_ref(BinOp::Add, &Value::Int(i64::MAX), &Value::Int(1))),
        Err(ExecutionError::Overflow("add", Value::Int(i64::MAX), Value::Int(1)))
    );
    assert_eq!(done(Value::from("a").add(Value::from("b"))), Ok(Value::from("ab")));
    assert_eq!(done(Value::Int(7).rem(Value::Int(-2))), Ok(Value::Int(1)));
    assert_eq!(done(Value::Int(-7).div(Value::Int(2))), Ok(Value::Int(-3)));
    assert_eq!(done(Value::UInt(3).mul(Value::UInt(4))), Ok(Value::UInt(12)));
    assert_eq!(
        done(Value::UInt(3).sub(Value::Int(4))),
        Err(ExecutionError::UnsupportedBinaryOperator("sub", Value::UInt(3), Value::Int(4)))
    );
    assert!(matches!(
        Value::Float(1).add(Value::Float(2)),
        Outcome::Double(BinOp::Add, 1, 2)
    ));
    assert_eq!(value_negate(Value::from("a")), Err(ExecutionError::NoSuchOverload));
    assert_eq!(
        Value::Int(1).error_expected_type(ValueType::Bool),
        ExecutionError::UnexpectedType { got: "int".to_string(), want: "bool".to_string() }
    );
    let t = Opaque::Type(TypeValue::Core(CoreType::UInt));
    assert_eq!(t.runtime_type_name(), "type");
    assert_eq!(Value::UInt(1).type_of().name(), "uint");
}

#[test]
fn conversions_to_keys_and_optionals_hand_back_what_they_refuse() {
    assert_eq!(Key::try_from(Value::Int(1)), Ok(Key::Int(1)));
    assert_eq!(Key::try_from(Value::Null), Err(Value::Null));
    let v = Value::from("k");
    assert!(KeyRef::try_from(&v).unwrap().same(KeyRef::String("k")));
    assert_eq!(KeyRef::try_from(&Value::Null).err(), Some(Value::Null));
    let o = optional_of(Value::Int(1));
    let opt: &OptionalValue = (&o).try_into().unwrap();
    assert_eq!(opt.value(), Some(&Value::Int(1)));
    let refused: Result<&OptionalValue, ExecutionError> = (&v).try_into();
    assert_eq!(
        refused.err(),
        Some(ExecutionError::UnexpectedType {
            got: "string".to_string(),
            want: "optional_type".to_string()
        })
    );
    assert!(Value::Int(1) < Value::UInt(2));
    assert_eq!(Value::Int(1).partial_cmp(&Value::from("a")), None);
}
