use cel::access::{value_contains, value_field, value_has_field, value_index, value_iter, value_len};
use cel::ast::{CallExpr, ComprehensionExpr, Expr, Expression, ListExpr, LiteralValue};
use cel::compare::{compare_values, value_order};
use cel::context::Context;
use cel::double::Order;
use cel::error::ExecutionError;
use cel::key::Key;
use cel::map::CelMap;
use cel::model::{BinOp, CmpOp};
use cel::ops::{binary_values, value_negate, Outcome};
use cel::resolve::{Eval, Reply};
use cel::runtime::binop::{cel_add, cel_compare, reverse_code, values_equal, LeafOut};
use cel::runtime::convert::{intern_leaf, ref_to_value};
use cel::runtime::error::ErrorSlot;
use cel::runtime::heap::CelHeap;
use cel::runtime::object::{new_int, w_place};
use cel::time::{Duration, Timestamp};
use cel::value::Value;
use std::sync::Arc;

fn float(f: f64) -> Value {
    Value::Float(f.to_bits())
}

fn list(items: Vec<Value>) -> Value {
    Value::from(items)
}

fn span(nanos: i64) -> Value {
    Value::Duration(Duration::nanoseconds(nanos))
}

fn at(secs: i64, offset: i32) -> Value {
    Value::Timestamp(Timestamp::new(secs, 0, offset).unwrap())
}

fn one_entry(k: Key, v: Value) -> Value {
    Value::CelMap(CelMap::ordered(vec![(k, v)]))
}

fn samples() -> Vec<Value> {
    vec![
        Value::Int(-1),
        Value::Int(1),
        Value::UInt(1),
        Value::UInt(u64::MAX),
        float(1.0),
        float(-0.0),
        float(f64::NAN),
        Value::from("a"),
        Value::from("b"),
        Value::from(vec![1u8]),
        Value::Bool(true),
        Value::Null,
        span(5),
        at(7, 0),
        at(7, 3600),
        list(vec![Value::Int(1), Value::from("a")]),
        list(vec![Value::UInt(1), Value::from("a")]),
        one_entry(Key::Int(1), Value::Int(2)),
        one_entry(Key::Uint(1), Value::Int(2)),
        one_entry(Key::from("k"), list(vec![float(f64::NAN)])),
    ]
}

fn done(op: BinOp, l: Value, r: Value) -> Result<Value, ExecutionError> {
    match binary_values(op, l, r) {
        Outcome::Done(r) => r,
        other => panic!("{other:?}"),
    }
}

#[test]
fn equality_is_the_same_from_either_side() {
    for a in samples() {
        for b in samples() {
            assert_eq!(a == b, b == a, "{a:?} {b:?}");
        }
    }
}

#[test]
fn a_value_equals_itself_unless_it_holds_nan() {
    for v in samples() {
        let holds_nan = format!("{v:?}").contains(&f64::NAN.to_bits().to_string());
        assert_eq!(v == v.clone(), !holds_nan, "{v:?}");
    }
}

#[test]
fn orders_reverse_and_agree_with_equality() {
    for a in samples() {
        for b in samples() {
            let o = value_order(&a, &b);
            assert_eq!(value_order(&b, &a), o.map(|o| o.reverse()), "{a:?} {b:?}");
            if let Some(o) = o {
                assert_eq!(a == b, o == Order::Equal, "{a:?} {b:?}");
            }
            assert_eq!(
                compare_values(CmpOp::Less, &a, &b),
                compare_values(CmpOp::Greater, &b, &a)
            );
            assert_eq!(
                compare_values(CmpOp::LessEquals, &a, &b),
                compare_values(CmpOp::GreaterEquals, &b, &a)
            );
        }
    }
    let less = compare_values(CmpOp::Less, &Value::Int(1), &Value::UInt(2));
    assert_eq!(less, Ok(Value::Bool(true)));
    let ge = compare_values(CmpOp::GreaterEquals, &Value::Int(1), &Value::UInt(2));
    assert_eq!(ge, Ok(Value::Bool(false)));
}

#[test]
fn leaves_are_equal_as_their_values_are() {
    let h = &mut CelHeap::new();
    for a in samples() {
        for b in samples() {
            let (x, y) = (
                intern_leaf(h, &a).unwrap().unwrap(),
                intern_leaf(h, &b).unwrap().unwrap(),
            );
            let twins = matches!((&a, &b), (Value::CelMap(_), Value::CelMap(_)));
            if !twins {
                assert_eq!(values_equal(&x, &y), a == b, "{a:?} {b:?}");
            }
            assert_eq!(cel_compare(&y, &x), reverse_code(cel_compare(&x, &y)));
        }
    }
    // A number that is an `int` key here and a `uint` key there is one key to the
    // runtime, and two to the language.
    let (i, u) = (
        one_entry(Key::Int(1), Value::Null),
        one_entry(Key::Uint(1), Value::Null),
    );
    assert_ne!(i, u);
    let (x, y) = (intern_leaf(h, &i).unwrap().unwrap(), intern_leaf(h, &u).unwrap().unwrap());
    assert!(values_equal(&x, &y));
}

#[test]
fn division_adds_up() {
    for l in [-7i64, 7, i64::MAX, i64::MIN] {
        for r in [-2i64, 2, 3, i64::MAX] {
            let q = match done(BinOp::Div, Value::Int(l), Value::Int(r)).unwrap() {
                Value::Int(q) => q as i128,
                other => panic!("{other:?}"),
            };
            let m = match done(BinOp::Rem, Value::Int(l), Value::Int(r)).unwrap() {
                Value::Int(m) => m as i128,
                other => panic!("{other:?}"),
            };
            assert_eq!(q * r as i128 + m, l as i128);
        }
    }
    assert_eq!(done(BinOp::Div, Value::UInt(7), Value::UInt(2)), Ok(Value::UInt(3)));
    assert_eq!(done(BinOp::Rem, Value::UInt(7), Value::UInt(2)), Ok(Value::UInt(1)));
}

#[test]
fn minus_undoes_itself_and_plus() {
    for v in [Value::Int(5), float(1.5), Value::Bool(true), span(-9)] {
        let w = value_negate(v.clone()).unwrap();
        assert_eq!(value_negate(w), Ok(v));
    }
    for (l, r) in [
        (Value::Int(5), Value::Int(-8)),
        (Value::UInt(5), Value::UInt(8)),
        (span(5), span(-8)),
        (at(100, 60), span(-8)),
    ] {
        let sum = done(BinOp::Add, l.clone(), r.clone()).unwrap();
        assert_eq!(done(BinOp::Sub, sum, r), Ok(l));
    }
    let d = done(BinOp::Sub, at(100, 0), at(40, 3600)).unwrap();
    assert_eq!(d, Value::Duration(Duration::new(60, 0).unwrap()));
    assert_eq!(done(BinOp::Add, at(40, 3600), d.clone()), Ok(at(100, 0)));
    assert_eq!(done(BinOp::Add, d, at(40, 3600)), Ok(at(100, 0)));
    assert_eq!(done(BinOp::Mul, Value::Int(6), Value::Int(-7)), Ok(Value::Int(-42)));
    assert_eq!(done(BinOp::Mul, Value::Int(-7), Value::Int(6)), Ok(Value::Int(-42)));
}

#[test]
fn concatenation_adds_lengths_and_keeps_order() {
    let s = done(BinOp::Add, Value::from("h\u{e9}"), Value::from("llo")).unwrap();
    assert_eq!(value_len(&s), Some(6));
    let x = list(vec![Value::Int(1), Value::Int(2)]);
    let y = list(vec![Value::from("a")]);
    let z = done(BinOp::Add, x.clone(), y.clone()).unwrap();
    assert_eq!(value_len(&z), Some(3));
    assert_eq!(value_index(&z, &Value::Int(1)), value_index(&x, &Value::Int(1)));
    assert_eq!(value_index(&z, &Value::Int(2)), value_index(&y, &Value::Int(0)));
    assert!(value_index(&z, &Value::Int(3)).is_err());
    assert_eq!(value_contains(&z, &Value::from("a")), Ok(true));
    assert_eq!(value_contains(&x, &Value::from("a")), Ok(false));
    let left = done(BinOp::Add, z, x.clone()).unwrap();
    let right = done(BinOp::Add, x.clone(), done(BinOp::Add, y, x).unwrap()).unwrap();
    assert_eq!(left, right);
}

#[test]
fn what_is_iterated_is_there() {
    let m = Value::CelMap(CelMap::ordered(vec![
        (Key::from("k"), Value::Int(1)),
        (Key::Uint(2), Value::Int(2)),
    ]));
    let keys = value_iter(&m).unwrap();
    assert_eq!(Some(keys.len() as i64), value_len(&m));
    for (i, k) in keys.iter().enumerate() {
        assert_eq!(value_contains(&m, k), Ok(true));
        assert_eq!(value_index(&m, k), Ok(Value::Int(i as i64 + 1)));
    }
    assert_eq!(value_contains(&m, &Value::Int(2)), Ok(false));
    assert_eq!(value_index(&m, &Value::Int(2)), Ok(Value::Int(2)));
    for name in ["k", "l"] {
        assert_eq!(
            value_has_field(&m, name),
            Ok(Value::Bool(value_field(&m, name).is_ok()))
        );
    }
}

#[test]
fn leaves_compute_as_their_values_do() {
    let h = &mut CelHeap::new();
    for (l, r) in [
        (Value::Int(5), Value::Int(-8)),
        (Value::from("a"), Value::from("b")),
        (at(100, 60), span(8)),
        (span(8), at(100, 60)),
        (list(vec![Value::Int(1)]), list(vec![Value::Null])),
    ] {
        let s = &mut ErrorSlot::new();
        let (x, y) = (intern_leaf(h, &l).unwrap().unwrap(), intern_leaf(h, &r).unwrap().unwrap());
        match cel_add(h, s, &x, &y) {
            LeafOut::Ref(w) => {
                assert_eq!(ref_to_value(&w).unwrap(), done(BinOp::Add, l, r).unwrap())
            }
            other => panic!("{other:?}"),
        }
    }
    let a = w_place(&new_int(h, 7).unwrap());
    let b = w_place(&new_int(h, 7).unwrap());
    let c = w_place(&new_int(h, 8).unwrap());
    assert_eq!(a, b);
    assert_ne!(a, c);
}

// -- evaluation --------------------------------------------------------------

fn ex(expr: Expr) -> Expression {
    Expression { id: 0, expr }
}

fn num(i: i64) -> Expression {
    ex(Expr::Literal(LiteralValue::Int(i)))
}

fn truth(b: bool) -> Expression {
    ex(Expr::Literal(LiteralValue::Boolean(b)))
}

fn name(n: &str) -> Expression {
    ex(Expr::Ident(n.to_string()))
}

fn call(n: &str, args: Vec<Expression>) -> Expression {
    ex(Expr::Call(CallExpr { func_name: n.to_string(), target: None, args }))
}

fn literal(elements: Vec<Expression>) -> Expression {
    ex(Expr::List(ListExpr { elements, optional_indices: vec![] }))
}

fn outcome(e: &Expression, ctx: &Context) -> Result<Value, ExecutionError> {
    match Value::resolve(e, ctx, &vec![]) {
        Eval::Done(v) => Ok(v),
        Eval::Fail(e) => Err(e),
        other => panic!("{other:?}"),
    }
}

fn failing() -> Expression {
    call("_/_", vec![num(1), num(0)])
}

#[test]
fn logic_decides_from_either_side() {
    let ctx = Context::default();
    type Side = fn() -> Expression;
    let sides: [Side; 4] = [|| truth(true), || truth(false), failing, || num(5)];
    for op in ["_&&_", "_||_"] {
        let absorbing = op == "_||_";
        for l in sides {
            for r in sides {
                let lr = outcome(&call(op, vec![l(), r()]), &ctx);
                let rl = outcome(&call(op, vec![r(), l()]), &ctx);
                assert_eq!(lr.is_ok(), rl.is_ok());
                if let (Ok(a), Ok(b)) = (&lr, &rl) {
                    assert_eq!(a, b);
                    assert!(matches!(a, Value::Bool(_)));
                }
                let either = |x: Side| outcome(&x(), &ctx) == Ok(Value::Bool(absorbing));
                if either(l) || either(r) {
                    assert_eq!(lr, Ok(Value::Bool(absorbing)));
                }
            }
        }
    }
    let c = call("_?_:_", vec![truth(true), num(1), failing()]);
    assert_eq!(outcome(&c, &ctx), Ok(Value::Int(1)));
}

fn comprehension(init: Expression, cond: Expression, step: Expression) -> Expression {
    ex(Expr::Comprehension(Box::new(ComprehensionExpr {
        iter_range: literal(vec![num(1), num(2), num(3)]),
        iter_var: "x".to_string(),
        accu_var: "@result".to_string(),
        accu_init: init,
        loop_cond: cond,
        loop_step: step,
        result: name("@result"),
    })))
}

#[test]
fn shortcuts_give_what_the_plain_loop_gives() {
    let ctx = Context::default();
    let plain_true = || call("!_", vec![truth(false)]);
    let double = || call("_*_", vec![name("x"), num(2)]);
    let append = || call("_+_", vec![name("@result"), literal(vec![double()])]);
    let odd = || call("_==_", vec![call("_%_", vec![name("x"), num(2)]), num(1)]);
    let guarded = || call("_?_:_", vec![odd(), append(), name("@result")]);
    for (step, again, want) in [
        (append(), append(), vec![2i64, 4, 6]),
        (guarded(), guarded(), vec![2, 6]),
    ] {
        let quick = comprehension(literal(vec![]), truth(true), step);
        let plain = comprehension(literal(vec![]), plain_true(), again);
        let want = list(want.into_iter().map(Value::Int).collect());
        assert_eq!(outcome(&quick, &ctx), Ok(want.clone()));
        assert_eq!(outcome(&plain, &ctx), Ok(want));
    }
    let small = || call("_<_", vec![name("x"), num(3)]);
    let step = || call("_&&_", vec![name("@result"), small()]);
    let quick = comprehension(
        truth(true),
        call("@not_strictly_false", vec![name("@result")]),
        step(),
    );
    let plain = comprehension(truth(true), plain_true(), step());
    assert_eq!(outcome(&quick, &ctx), Ok(Value::Bool(false)));
    assert_eq!(outcome(&plain, &ctx), Ok(Value::Bool(false)));
}

#[test]
fn a_name_that_does_not_occur_does_not_matter() {
    let e = call("_+_", vec![name("a"), num(1)]);
    let mut ctx = Context::default();
    ctx.add_variable_from_value("a", Value::Int(1));
    let before = outcome(&e, &ctx);
    ctx.add_variable_from_value("b", Value::from("other"));
    assert_eq!(outcome(&e, &ctx), before);
    assert_eq!(before, Ok(Value::Int(2)));
}

#[test]
fn further_replies_change_nothing() {
    let e = call("f", vec![num(1)]);
    let ctx = Context::default();
    let mut replies = vec![Reply::Value(Value::Int(4))];
    match Value::resolve(&e, &ctx, &replies) {
        Eval::Done(v) => assert_eq!(v, Value::Int(4)),
        other => panic!("{other:?}"),
    }
    replies.push(Reply::Failed(ExecutionError::NoSuchKey(Arc::new("k".to_string()))));
    match Value::resolve(&e, &ctx, &replies) {
        Eval::Done(v) => assert_eq!(v, Value::Int(4)),
        other => panic!("{other:?}"),
    }
}

#[test]
fn reading_in_place_is_reading_what_is_read_back() {
    let h = &mut CelHeap::new();
    let list = Value::from(vec![Value::from("x"), Value::from(vec![Value::Int(1)]), Value::Null]);
    let map = Value::CelMap(CelMap::ordered(vec![
        (Key::from("a"), Value::from("x")),
        (Key::Uint(2), Value::from(vec![Value::Bool(true)])),
        (Key::Int(-1), Value::Int(5)),
    ]));
    let keys = [
        Value::Int(0),
        Value::UInt(1),
        Value::Int(2),
        Value::Int(3),
        Value::Int(-1),
        Value::UInt(u64::MAX),
        Value::from("a"),
        Value::from("b"),
        Value::Null,
        Value::Bool(true),
    ];
    for v in [list, map] {
        let leaf = Value::Interned(intern_leaf(h, &v).unwrap().unwrap());
        for k in &keys {
            let got = value_index(&leaf, k);
            assert_eq!(got, value_index(&v, k));
            assert_eq!(got.is_ok(), matches!(got, Ok(Value::Interned(_))));
        }
        assert_eq!(value_field(&leaf, "a"), value_field(&v, "a"));
        let items = value_iter(&leaf).unwrap();
        assert!(items.iter().all(|x| matches!(x, Value::Interned(_))));
        assert_eq!(items, value_iter(&v).unwrap());
    }
}
