use cel::compare::compare_values;
use cel::error::ExecutionError;
use cel::model::{BinOp, CmpOp};
use cel::runtime::binop::{
    cel_add, cel_compare, cel_div, cel_equals, cel_greater, cel_greater_equals, cel_less,
    cel_less_equals, cel_mul, cel_negate, cel_not_equals, cel_rem, cel_sub, reverse_code,
    values_equal, w_bytes_add, w_bytes_cmp, w_bytes_eq, w_int_div, w_int_rem, w_optional_eq,
    w_string_add, w_string_cmp, w_string_eq, w_timestamp_diff, w_uint_div, w_uint_rem, LeafOut,
    CMP_EQUAL, CMP_GREATER, CMP_INCOMPARABLE, CMP_LESS,
};
use cel::runtime::error::{clear_error, has_error, raise, take_error, CelErrCode, ErrorSlot};
use cel::runtime::heap::CelHeap;
use cel::runtime::object::{
    bytes_payload, new_bool, new_bytes, new_double, new_duration, new_int, new_null, new_optional,
    new_optional_none, new_string, new_timestamp, new_type, new_uint, same_object, string_as_str,
    w_type, CelClass, CelRef, W_Root,
};
use cel::time::{Duration, Timestamp};
use cel::value::Value;
use std::sync::Arc;

fn int_of(out: LeafOut) -> i64 {
    match &*leaf(out) {
        W_Root::Int(o) => o.intval,
        other => panic!("{other:?}"),
    }
}

/// The leaf of an answer, with double arithmetic done here.
fn leaf(out: LeafOut) -> Arc<W_Root> {
    match out {
        LeafOut::Ref(Some(w)) => w,
        LeafOut::Ref(None) => panic!("refused"),
        LeafOut::Double(op, lhs, rhs) => {
            let (l, r) = (f64::from_bits(lhs), f64::from_bits(rhs));
            let v = match op {
                BinOp::Add => l + r,
                BinOp::Sub => l - r,
                BinOp::Mul => l * r,
                _ => l / r,
            };
            new_double(&mut CelHeap::new(), v.to_bits()).unwrap()
        }
    }
}

fn refused(out: LeafOut) -> bool {
    matches!(out, LeafOut::Ref(None))
}

fn num(h: &mut CelHeap, i: i64) -> Arc<W_Root> {
    new_int(h, i).unwrap()
}

fn uint(h: &mut CelHeap, u: u64) -> Arc<W_Root> {
    new_uint(h, u).unwrap()
}

fn double(h: &mut CelHeap, f: f64) -> Arc<W_Root> {
    new_double(h, f.to_bits()).unwrap()
}

fn float_of(w: &W_Root) -> f64 {
    match w {
        W_Root::Double(o) => f64::from_bits(o.floatval),
        other => panic!("{other:?}"),
    }
}

fn bool_of(w: &CelRef) -> bool {
    match &**w.as_ref().unwrap() {
        W_Root::Bool(o) => o.boolval != 0,
        other => panic!("{other:?}"),
    }
}

fn instant_of(w: &W_Root) -> (i64, i64) {
    match w {
        W_Root::Timestamp(o) => (o.nanos, o.off_s),
        other => panic!("{other:?}"),
    }
}

fn span_of(w: &W_Root) -> i64 {
    match w {
        W_Root::Duration(o) => o.nanos,
        other => panic!("{other:?}"),
    }
}

#[test]
fn same_class_arithmetic_matches_the_value_operators() {
    let h = &mut CelHeap::new();
    let s = &mut ErrorSlot::new();
    let (two, three, seven) = (num(h, 2), num(h, 3), num(h, 7));
    assert_eq!(int_of(cel_add(h, s, &two, &three)), 5);
    assert_eq!(int_of(cel_sub(h, s, &two, &three)), -1);
    assert_eq!(int_of(cel_mul(h, s, &two, &three)), 6);
    assert_eq!(int_of(cel_div(h, s, &seven, &two)), 3);
    assert_eq!(int_of(cel_rem(h, s, &seven, &two)), 1);

    let (a, b) = (uint(h, 2), uint(h, 3));
    match &*leaf(cel_add(h, s, &a, &b)) {
        W_Root::UInt(o) => assert_eq!(o.uintval, 5),
        other => panic!("{other:?}"),
    }
    let (a, b) = (double(h, 1.0), double(h, 4.0));
    assert_eq!(float_of(&leaf(cel_div(h, s, &a, &b))), 0.25);
    assert!(!has_error(s));
}

#[test]
fn overflow_raises_and_returns_the_sentinel() {
    let h = &mut CelHeap::new();
    let s = &mut ErrorSlot::new();
    let (a, b) = (num(h, i64::MAX), num(h, 1));
    assert!(refused(cel_add(h, s, &a, &b)));
    let err = take_error(s).expect("a sentinel comes with a raised error");
    assert_eq!(err.code, CelErrCode::Overflow);
    assert_eq!(err.op, "add");
}

#[test]
fn zero_divisors_report_their_own_codes() {
    let h = &mut CelHeap::new();
    let s = &mut ErrorSlot::new();
    let (one, zero) = (num(h, 1), num(h, 0));
    assert!(refused(cel_div(h, s, &one, &zero)));
    assert_eq!(take_error(s).unwrap().code, CelErrCode::DivisionByZero);
    assert!(refused(cel_rem(h, s, &one, &zero)));
    assert_eq!(take_error(s).unwrap().code, CelErrCode::RemainderByZero);
    let (one, zero) = (uint(h, 1), uint(h, 0));
    assert!(refused(cel_div(h, s, &one, &zero)));
    assert_eq!(take_error(s).unwrap().code, CelErrCode::DivisionByZero);
}

#[test]
fn signed_division_separates_its_two_failures() {
    let h = &mut CelHeap::new();
    let s = &mut ErrorSlot::new();
    let (a, b) = (num(h, i64::MIN), num(h, -1));
    assert!(refused(cel_div(h, s, &a, &b)));
    assert_eq!(take_error(s).unwrap().code, CelErrCode::Overflow);
}

#[test]
fn double_division_by_zero_is_infinity_not_an_error() {
    let h = &mut CelHeap::new();
    let s = &mut ErrorSlot::new();
    let (a, b) = (double(h, 1.0), double(h, 0.0));
    assert!(float_of(&leaf(cel_div(h, s, &a, &b))).is_infinite());
    assert!(!has_error(s));
}

#[test]
fn mixed_classes_take_the_refusal() {
    let h = &mut CelHeap::new();
    let s = &mut ErrorSlot::new();
    let (a, b) = (num(h, 1), uint(h, 1));
    assert!(refused(cel_add(h, s, &a, &b)));
    let err = take_error(s).unwrap();
    assert_eq!(err.code, CelErrCode::UnsupportedBinaryOperator);
    assert_eq!(err.op, "add");
}

#[test]
fn timestamp_and_duration_arithmetic() {
    let h = &mut CelHeap::new();
    let s = &mut ErrorSlot::new();
    let ts = new_timestamp(h, 1_000, -7).unwrap();
    let d = new_duration(h, 500).unwrap();

    let later = leaf(cel_add(h, s, &ts, &d));
    assert_eq!(instant_of(&later), (1_500, -7));
    let also = leaf(cel_add(h, s, &d, &ts));
    assert_eq!(instant_of(&also).0, 1_500);
    let earlier = leaf(cel_sub(h, s, &ts, &d));
    assert_eq!(instant_of(&earlier).0, 500);

    let other = new_timestamp(h, 400, 0).unwrap();
    let span = leaf(cel_sub(h, s, &ts, &other));
    assert_eq!(w_type(&span), CelClass::Duration);
    assert_eq!(span_of(&span), 600);
    assert!(!has_error(s));
}

#[test]
fn negation_covers_int_double_bool_and_duration() {
    let h = &mut CelHeap::new();
    let s = &mut ErrorSlot::new();
    let three = num(h, 3);
    match &*cel_negate(h, s, &three).unwrap() {
        W_Root::Int(o) => assert_eq!(o.intval, -3),
        other => panic!("{other:?}"),
    }
    let half = double(h, 0.5);
    assert_eq!(float_of(&cel_negate(h, s, &half).unwrap()), -0.5);
    let yes = new_bool(true).unwrap();
    let not_true = cel_negate(h, s, &yes);
    assert!(!bool_of(&not_true));
    let nine = new_duration(h, 9).unwrap();
    assert_eq!(span_of(&cel_negate(h, s, &nine).unwrap()), -9);

    let u = uint(h, 1);
    assert!(cel_negate(h, s, &u).is_none());
    assert_eq!(take_error(s).unwrap().code, CelErrCode::NoSuchOverload);
    let low = num(h, i64::MIN);
    assert!(cel_negate(h, s, &low).is_none());
    assert_eq!(take_error(s).unwrap().code, CelErrCode::Overflow);
}

fn oracle_values() -> Vec<Value> {
    vec![
        Value::Int(-1),
        Value::Int(0),
        Value::Int(1),
        Value::Int(i64::MIN),
        Value::Int(i64::MAX),
        Value::UInt(0),
        Value::UInt(1),
        Value::UInt(i64::MAX as u64),
        Value::UInt(u64::MAX),
        Value::Float((-1.0f64).to_bits()),
        Value::Float(0.0f64.to_bits()),
        Value::Float(1.0f64.to_bits()),
        Value::Float(f64::NAN.to_bits()),
        Value::Float(f64::INFINITY.to_bits()),
        Value::Bool(false),
        Value::Bool(true),
        Value::Null,
        Value::Duration(Duration::nanoseconds(5)),
        Value::Duration(Duration::nanoseconds(-5)),
        Value::Timestamp(Timestamp::utc_from_nanoseconds(7)),
    ]
}

fn boxed(h: &mut CelHeap, v: &Value) -> Arc<W_Root> {
    match v {
        Value::Int(i) => new_int(h, *i),
        Value::UInt(u) => new_uint(h, *u),
        Value::Float(f) => new_double(h, *f),
        Value::Bool(b) => new_bool(*b),
        Value::Null => new_null(),
        Value::Duration(d) => new_duration(h, d.num_nanoseconds().unwrap()),
        Value::Timestamp(t) => new_timestamp(h, t.num_nanoseconds().unwrap(), t.offset() as i64),
        other => panic!("no leaf for {other:?}"),
    }
    .unwrap()
}

#[test]
fn equality_agrees_with_the_value_operator() {
    let h = &mut CelHeap::new();
    let values = oracle_values();
    for lhs in &values {
        for rhs in &values {
            let want = lhs == rhs;
            let (l, r) = (boxed(h, lhs), boxed(h, rhs));
            assert_eq!(bool_of(&cel_equals(&l, &r)), want, "{lhs:?} == {rhs:?}");
            assert_eq!(bool_of(&cel_not_equals(&l, &r)), !want, "{lhs:?} != {rhs:?}");
        }
    }
}

#[derive(Default)]
struct Split {
    answered: u32,
    answered_cross_class: u32,
    refused: u32,
}

fn agrees_with_compare_values(
    lhs: &Value,
    rhs: &Value,
    op: CmpOp,
    got: CelRef,
    slot: &mut ErrorSlot,
    split: &mut Split,
) {
    match compare_values(op, lhs, rhs) {
        Ok(Value::Bool(want)) => {
            split.answered += 1;
            if std::mem::discriminant(lhs) != std::mem::discriminant(rhs) {
                split.answered_cross_class += 1;
            }
            assert_eq!(bool_of(&got), want, "{lhs:?} vs {rhs:?}");
        }
        Err(ExecutionError::NoSuchOverload) => {
            split.refused += 1;
            assert!(got.is_none(), "{lhs:?} vs {rhs:?} answered, oracle refused");
            assert_eq!(take_error(slot).unwrap().code, CelErrCode::NoSuchOverload);
        }
        other => panic!("unexpected oracle answer: {other:?}"),
    }
}

#[test]
fn ordering_agrees_with_compare_values() {
    let h = &mut CelHeap::new();
    let values = oracle_values();
    let mut split = Split::default();
    for lhs in &values {
        for rhs in &values {
            let (l, r) = (boxed(h, lhs), boxed(h, rhs));
            let s = &mut ErrorSlot::new();
            let got = cel_less(s, &l, &r);
            agrees_with_compare_values(lhs, rhs, CmpOp::Less, got, s, &mut split);
            clear_error(s);
            let got = cel_less_equals(s, &l, &r);
            agrees_with_compare_values(lhs, rhs, CmpOp::LessEquals, got, s, &mut split);
            clear_error(s);
            let got = cel_greater(s, &l, &r);
            agrees_with_compare_values(lhs, rhs, CmpOp::Greater, got, s, &mut split);
            clear_error(s);
            let got = cel_greater_equals(s, &l, &r);
            agrees_with_compare_values(lhs, rhs, CmpOp::GreaterEquals, got, s, &mut split);
        }
    }
    let total = (values.len() * values.len() * 4) as u32;
    assert_eq!(split.answered + split.refused, total, "every case classified");
    assert!(split.answered > total / 4, "answered {}", split.answered);
    assert!(split.refused > total / 4, "refused {}", split.refused);
    assert!(split.answered_cross_class > total / 8, "{}", split.answered_cross_class);
}

#[test]
fn compare_codes_are_the_four_the_operators_test() {
    let h = &mut CelHeap::new();
    let (one, two, three) = (num(h, 1), num(h, 2), num(h, 3));
    let also_two = num(h, 2);
    assert_eq!(cel_compare(&one, &two), CMP_LESS);
    assert_eq!(cel_compare(&two, &also_two), CMP_EQUAL);
    assert_eq!(cel_compare(&three, &two), CMP_GREATER);
    let yes = new_bool(true).unwrap();
    let null = new_null().unwrap();
    assert_eq!(cel_compare(&one, &yes), CMP_INCOMPARABLE);
    assert_eq!(cel_compare(&null, &null), CMP_INCOMPARABLE);
    assert_eq!(reverse_code(CMP_INCOMPARABLE), CMP_INCOMPARABLE);
    assert_eq!(reverse_code(CMP_EQUAL), CMP_EQUAL);
    assert_eq!(reverse_code(CMP_LESS), CMP_GREATER);
}

#[test]
fn null_compares_equal_and_refuses_to_order() {
    let s = &mut ErrorSlot::new();
    let (a, b) = (new_null().unwrap(), new_null().unwrap());
    assert!(bool_of(&cel_equals(&a, &b)));
    assert!(cel_less(s, &a, &b).is_none());
    assert_eq!(take_error(s).unwrap().code, CelErrCode::NoSuchOverload);
}

#[test]
fn type_values_compare_by_denoted_class() {
    let h = &mut CelHeap::new();
    let s = &mut ErrorSlot::new();
    let int_ty = new_type(h, CelClass::Int);
    let also_int = new_type(h, CelClass::Int);
    let uint_ty = new_type(h, CelClass::UInt);
    assert!(!same_object(&int_ty, &also_int), "two allocations, not one interned value");
    let (int_ty, also_int, uint_ty) = (int_ty.unwrap(), also_int.unwrap(), uint_ty.unwrap());
    assert!(values_equal(&int_ty, &also_int));
    assert!(!values_equal(&int_ty, &uint_ty));
    assert!(cel_less(s, &int_ty, &uint_ty).is_none());
    assert_eq!(take_error(s).unwrap().code, CelErrCode::NoSuchOverload);
}

#[test]
fn timestamp_comparison_ignores_the_offset() {
    let h = &mut CelHeap::new();
    let utc = new_timestamp(h, 1_000, 0).unwrap();
    let plus_nine = new_timestamp(h, 1_000, 9 * 3_600).unwrap();
    assert!(values_equal(&utc, &plus_nine));
    assert_eq!(cel_compare(&utc, &plus_nine), CMP_EQUAL);
    let later = new_timestamp(h, 2_000, 9 * 3_600).unwrap();
    assert_eq!(cel_compare(&utc, &later), CMP_LESS);
}

#[test]
fn optionals_compare_by_presence_and_by_payload() {
    let h = &mut CelHeap::new();
    let none = new_optional_none(h);
    let also_none = new_optional_none(h);
    assert!(!same_object(&none, &also_none), "two allocations, not one interned none");
    let (none, also_none) = (none.unwrap(), also_none.unwrap());
    assert!(values_equal(&none, &also_none));

    let (i1, i1b, i2, u1) = (num(h, 1), num(h, 1), num(h, 2), uint(h, 1));
    let one = new_optional(h, i1).unwrap();
    let also_one = new_optional(h, i1b).unwrap();
    let two = new_optional(h, i2).unwrap();
    assert!(values_equal(&one, &also_one), "equal by payload, not identity");
    assert!(!values_equal(&one, &two));
    assert!(!values_equal(&none, &one));
    assert!(!values_equal(&one, &none));
    let one_u = new_optional(h, u1).unwrap();
    assert!(values_equal(&one, &one_u));
}

#[test]
fn optionals_refuse_to_order() {
    let h = &mut CelHeap::new();
    let s = &mut ErrorSlot::new();
    let (i1, i2) = (num(h, 1), num(h, 2));
    let one = new_optional(h, i1).unwrap();
    let two = new_optional(h, i2).unwrap();
    assert!(cel_less(s, &one, &two).is_none());
    assert_eq!(take_error(s).unwrap().code, CelErrCode::NoSuchOverload);
}

#[test]
fn an_error_is_taken_once() {
    let s = &mut ErrorSlot::new();
    assert!(!has_error(s));
    assert!(raise(s, CelErrCode::Overflow, "mul", new_null(), None).is_none());
    assert!(has_error(s));
    assert!(raise(s, CelErrCode::NoneDereference, "value", None, None).is_none());
    assert_eq!(take_error(s).unwrap().code, CelErrCode::NoneDereference);
    assert!(take_error(s).is_none());
    raise(s, CelErrCode::Overflow, "mul", None, None);
    clear_error(s);
    assert!(!has_error(s));
}

#[test]
fn classes_have_operators_of_their_own() {
    let h = &mut CelHeap::new();
    let s = &mut ErrorSlot::new();
    let (a, b, z) = (num(h, 7), num(h, -2), num(h, 0));
    assert!(matches!(&*w_int_div(h, s, &a, &b).unwrap(), W_Root::Int(o) if o.intval == -3));
    assert!(matches!(&*w_int_rem(h, s, &a, &b).unwrap(), W_Root::Int(o) if o.intval == 1));
    assert!(w_int_rem(h, s, &a, &z).is_none());
    assert_eq!(take_error(s).unwrap().code, CelErrCode::RemainderByZero);
    let (a, b) = (uint(h, 7), uint(h, 2));
    assert!(matches!(&*w_uint_div(h, s, &a, &b).unwrap(), W_Root::UInt(o) if o.uintval == 3));
    assert!(matches!(&*w_uint_rem(h, s, &a, &b).unwrap(), W_Root::UInt(o) if o.uintval == 1));
    let (t, u) = (new_timestamp(h, i64::MAX, 0).unwrap(), new_timestamp(h, -1, 0).unwrap());
    assert!(w_timestamp_diff(h, s, &t, &u).is_none());
    assert_eq!(take_error(s).unwrap().code, CelErrCode::Overflow);
    let (x, y) = (
        new_string(h, &Arc::new("ab".to_string())).unwrap(),
        new_string(h, &Arc::new("b".to_string())).unwrap(),
    );
    match (&*x, &*y) {
        (W_Root::Str(x), W_Root::Str(y)) => {
            assert!(!w_string_eq(x, y));
            assert!(w_string_eq(x, x));
            assert_eq!(w_string_cmp(x, y), CMP_LESS);
            assert_eq!(string_as_str(&w_string_add(h, x, y).unwrap()), Some("abb"));
        }
        other => panic!("{other:?}"),
    }
    let (x, y) = (
        new_bytes(h, &Arc::new(vec![2])).unwrap(),
        new_bytes(h, &Arc::new(vec![1, 9])).unwrap(),
    );
    match (&*x, &*y) {
        (W_Root::Bytes(x), W_Root::Bytes(y)) => {
            assert!(!w_bytes_eq(x, y));
            assert_eq!(w_bytes_cmp(x, y), CMP_GREATER);
            match &*w_bytes_add(h, x, y).unwrap() {
                W_Root::Bytes(z) => assert_eq!(bytes_payload(z).as_slice(), &[2, 1, 9]),
                other => panic!("{other:?}"),
            }
        }
        other => panic!("{other:?}"),
    }
    let (none, one) = (new_optional_none(h).unwrap(), num(h, 1));
    let some = new_optional(h, one).unwrap();
    assert!(!w_optional_eq(&none, &some));
    assert!(w_optional_eq(&some, &some));
}
