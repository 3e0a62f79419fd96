use cel::access::{optional_none, optional_of};
use cel::ast::{
    CallExpr, ComprehensionExpr, EntryExpr, Expr, Expression, ListExpr, LiteralValue, MapExpr,
    SelectExpr, StructExpr,
};
use cel::context::Context;
use cel::error::ExecutionError;
use cel::key::Key;
use cel::list::{ListRef, ListStorage};
use cel::map::{CelMap, Table};
use cel::model::BinOp;
use cel::resolve::{Eval, Reply, Request};
use cel::runtime::convert::intern_leaf;
use cel::runtime::heap::CelHeap;
use cel::time::{Duration, Timestamp};
use cel::value::{CelStruct, HostObject, Opaque, OptionalValue, Value};
use std::sync::Arc;

fn ex(expr: Expr) -> Expression {
    Expression { id: 0, expr }
}

fn num(i: i64) -> Expression {
    ex(Expr::Literal(LiteralValue::Int(i)))
}

fn uint(u: u64) -> Expression {
    ex(Expr::Literal(LiteralValue::UInt(u)))
}

fn dbl(f: f64) -> Expression {
    ex(Expr::Literal(LiteralValue::Double(f.to_bits())))
}

fn boolean(b: bool) -> Expression {
    ex(Expr::Literal(LiteralValue::Boolean(b)))
}

fn null() -> Expression {
    ex(Expr::Literal(LiteralValue::Null))
}

fn text(s: &str) -> Expression {
    ex(Expr::Literal(LiteralValue::String(Arc::new(s.to_string()))))
}

fn id(name: &str) -> Expression {
    ex(Expr::Ident(name.to_string()))
}

fn call(name: &str, args: Vec<Expression>) -> Expression {
    ex(Expr::Call(CallExpr { func_name: name.to_string(), target: None, args }))
}

fn method(target: Expression, name: &str, args: Vec<Expression>) -> Expression {
    ex(Expr::Call(CallExpr {
        func_name: name.to_string(),
        target: Some(Box::new(target)),
        args,
    }))
}

fn bin(op: &str, l: Expression, r: Expression) -> Expression {
    call(op, vec![l, r])
}

fn select(operand: Expression, field: &str) -> Expression {
    ex(Expr::Select(SelectExpr {
        operand: Box::new(operand),
        field: field.to_string(),
        test: false,
    }))
}

fn has(operand: Expression, field: &str) -> Expression {
    ex(Expr::Select(SelectExpr {
        operand: Box::new(operand),
        field: field.to_string(),
        test: true,
    }))
}

fn list(elements: Vec<Expression>) -> Expression {
    ex(Expr::List(ListExpr { elements, optional_indices: vec![] }))
}

fn opt_list(elements: Vec<Expression>, optional_indices: Vec<usize>) -> Expression {
    ex(Expr::List(ListExpr { elements, optional_indices }))
}

fn map(entries: Vec<(Expression, Expression, bool)>) -> Expression {
    let entries = entries
        .into_iter()
        .map(|(key, value, optional)| EntryExpr::MapEntry { key, value, optional })
        .collect();
    ex(Expr::CelMap(MapExpr { entries }))
}

fn strukt(name: &str, fields: Vec<(&str, Expression)>) -> Expression {
    let entries = fields
        .into_iter()
        .map(|(field, value)| EntryExpr::StructField {
            field: field.to_string(),
            value,
            optional: false,
        })
        .collect();
    ex(Expr::Struct(StructExpr { type_label: name.to_string(), entries }))
}

fn none_call() -> Expression {
    method(id("optional"), "none", vec![])
}

fn of_call(x: Expression) -> Expression {
    method(id("optional"), "of", vec![x])
}

fn str_of(v: &Value) -> String {
    match v {
        Value::String(s) => s.to_string(),
        Value::Int(i) => i.to_string(),
        other => panic!("no text for {other:?}"),
    }
}

fn optional_inner(v: &Value) -> Option<Value> {
    match v {
        Value::Opaque(o) => match &**o {
            Opaque::Optional(opt) => opt.value().cloned(),
            other => panic!("not an optional: {other:?}"),
        },
        other => panic!("not an optional: {other:?}"),
    }
}

/// The functions, struct types and double arithmetic of the tests.
fn serve(request: &Request) -> Reply {
    match request {
        Request::Double { op, lhs, rhs } => {
            let (l, r) = (f64::from_bits(*lhs), f64::from_bits(*rhs));
            let v = match op {
                BinOp::Add => l + r,
                BinOp::Sub => l - r,
                BinOp::Mul => l * r,
                _ => l / r,
            };
            Reply::Value(Value::Float(v.to_bits()))
        }
        Request::Overload { name, args } => match (name.as_str(), args.as_slice()) {
            ("uint", [Value::Int(i)]) => Reply::Value(Value::UInt(*i as u64)),
            ("double", [Value::String(s)]) if s.as_str() == "NaN" => {
                Reply::Value(Value::Float(f64::NAN.to_bits()))
            }
            ("size", [Value::List(l)]) => Reply::Value(Value::Int(l.len() as i64)),
            ("timestamp", [Value::String(s)]) if s.as_str() == "2020-01-01T00:00:00Z" => {
                Reply::Value(Value::Timestamp(Timestamp::new(1_577_836_800, 0, 0).unwrap()))
            }
            ("duration", [Value::String(s)]) if s.as_str() == "1s" => {
                Reply::Value(Value::Duration(Duration::new(1, 0).unwrap()))
            }
            ("string", [v]) => Reply::Value(Value::from(str_of(v).as_str())),
            _ => Reply::Declined,
        },
        Request::QualifiedOverload { prefix, name, args } => {
            match (prefix.as_str(), name.as_str(), args.as_slice()) {
                ("optional", "none", []) => Reply::Value(optional_none()),
                ("optional", "of", [v]) => Reply::Value(optional_of(v.clone())),
                ("optional", "ofNonZeroValue", [v]) => Reply::Value(if v.is_zero() {
                    optional_none()
                } else {
                    optional_of(v.clone())
                }),
                _ => Reply::Declined,
            }
        }
        Request::QualifiedFunction { prefix, name, args } => {
            match (prefix.as_str(), name.as_str(), args.as_slice()) {
                ("math", "max", [Value::Int(a), Value::Int(b)]) => {
                    Reply::Value(Value::Int(if a > b { *a } else { *b }))
                }
                _ => Reply::Declined,
            }
        }
        Request::MemberOverload { name, args } => match (name.as_str(), args.as_slice()) {
            ("startsWith", [Value::String(s), Value::String(p)]) => {
                Reply::Value(Value::Bool(s.starts_with(p.as_str())))
            }
            ("value", [o]) => match optional_inner(o) {
                Some(v) => Reply::Value(v),
                None => Reply::Failed(ExecutionError::function_error(
                    "value",
                    "optional.none() dereference",
                )),
            },
            ("hasValue", [o]) => Reply::Value(Value::Bool(optional_inner(o).is_some())),
            ("or", [a, b]) => Reply::Value(if optional_inner(a).is_some() {
                a.clone()
            } else {
                b.clone()
            }),
            ("orValue", [a, b]) => Reply::Value(optional_inner(a).unwrap_or(b.clone())),
            _ => Reply::Declined,
        },
        Request::MemberFunction { name, target, .. } => match (name.as_str(), target) {
            ("myFn", Value::Opaque(o)) if o.runtime_type_name() == "my_struct" => match &**o {
                Opaque::Host(h) => Reply::Value(Value::from(format!("value {}", h.token).as_str())),
                _ => Reply::Declined,
            },
            _ => Reply::Declined,
        },
        Request::StructType { name } => {
            if name.starts_with("cel.") {
                Reply::Value(Value::Null)
            } else {
                Reply::Declined
            }
        }
        Request::NewStruct { value } => {
            let known: &[&str] = match value.name().as_str() {
                "cel.Problem" => &["solved", "answer"],
                "cel.Defaulted" => &["some", "here"],
                _ => &["some", "name", "value"],
            };
            let mut built = CelStruct::new(value.name().clone());
            if value.name() == "cel.Defaulted" {
                built.add_field_value("here".to_string(), Value::from("yes"));
            }
            for (k, v) in value.field_values() {
                if !known.contains(&k.as_str()) {
                    return Reply::Failed(ExecutionError::NoSuchKey(Arc::new(format!(
                        "field `{}` on struct `{}`",
                        k,
                        value.name()
                    ))));
                }
                built.add_field_value(k.clone(), v.clone());
            }
            Reply::Value(Value::Struct(Arc::new(built)))
        }
        Request::Function { .. } => Reply::Declined,
        Request::Unspecified => panic!("nothing answers for an unspecified part"),
    }
}

fn run(expr: &Expression, ctx: &Context) -> Result<Value, ExecutionError> {
    let mut heap = CelHeap::new();
    let mut replies: Vec<Reply> = vec![];
    loop {
        match Value::resolve_value(&mut heap, expr, ctx, &replies) {
            Eval::Done(v) => return Ok(v),
            Eval::Fail(e) => return Err(e),
            Eval::Ask(request) => replies.push(serve(&request)),
        }
    }
}

fn ctx_with(vars: Vec<(&str, Value)>) -> Context {
    let mut ctx = Context::default();
    for (name, v) in vars {
        ctx.add_variable_from_value(name, v);
    }
    ctx
}

fn entries(pairs: Vec<(Key, Value)>) -> Value {
    Value::CelMap(CelMap::ordered(pairs))
}

fn object_map(pairs: Vec<(&str, Value)>) -> Value {
    let mut table = Table::new();
    for (k, v) in pairs {
        table.insert(Key::from(k), v);
    }
    Value::CelMap(CelMap::object(Arc::new(table)))
}

#[test]
fn test_indexed_map_access() {
    let ctx = ctx_with(vec![(
        "headers",
        entries(vec![(Key::from("Content-Type"), Value::from("application/json"))]),
    )]);
    let value = run(&bin("_[_]", id("headers"), text("Content-Type")), &ctx).unwrap();
    assert_eq!(value, "application/json".into());
}

#[test]
fn test_numeric_map_access() {
    let ctx = ctx_with(vec![("numbers", entries(vec![(Key::Uint(1), Value::from("one"))]))]);
    let value = run(&bin("_[_]", id("numbers"), uint(1)), &ctx).unwrap();
    assert_eq!(value, "one".into());
}

#[test]
fn test_heterogeneous_compare() {
    let ctx = Context::default();
    let value = run(&bin("_<_", num(1), call("uint", vec![num(2)])), &ctx).unwrap();
    assert_eq!(value, true.into());

    let value = run(&bin("_<_", num(1), dbl(1.1)), &ctx).unwrap();
    assert_eq!(value, true.into());

    let value = run(&bin("_>_", call("uint", vec![num(0)]), num(-10)), &ctx).unwrap();
    assert_eq!(value, true.into(), "negative signed ints should be less than uints");
}

#[test]
fn test_float_compare() {
    let ctx = Context::default();
    let value = run(&bin("_>_", dbl(1.0), dbl(0.0)), &ctx).unwrap();
    assert_eq!(value, true.into());

    let nan = || call("double", vec![text("NaN")]);
    let value = run(&bin("_==_", nan(), nan()), &ctx).unwrap();
    assert_eq!(value, false.into(), "NaN should not equal itself");

    let result = run(&bin("_>_", dbl(1.0), nan()), &ctx);
    assert!(result.is_err(), "NaN should not be comparable with inequality operators");
}

#[test]
fn test_invalid_compare() {
    let value = run(&bin("_==_", map(vec![]), list(vec![])), &Context::default()).unwrap();
    assert_eq!(value, false.into());
}

#[test]
fn test_size_fn_var() {
    let expr = bin(
        "_==_",
        bin("_+_", call("size", vec![id("requests")]), id("size")),
        num(5),
    );
    let ctx = ctx_with(vec![
        ("requests", Value::from(vec![Value::Int(42), Value::Int(42)])),
        ("size", Value::Int(3)),
    ]);
    assert_eq!(run(&expr, &ctx).unwrap(), Value::Bool(true));
}

fn check_error(expr: Expression, expected: ExecutionError) {
    let result = run(&expr, &Context::default());
    assert_eq!(result.unwrap_err(), expected);
}

#[test]
fn test_invalid_sub() {
    check_error(
        bin("_-_", text("foo"), num(10)),
        ExecutionError::UnsupportedBinaryOperator("sub", "foo".into(), Value::Int(10)),
    );
}

#[test]
fn test_invalid_add() {
    check_error(
        bin("_+_", text("foo"), num(10)),
        ExecutionError::UnsupportedBinaryOperator("add", "foo".into(), Value::Int(10)),
    );
}

#[test]
fn test_invalid_div() {
    check_error(
        bin("_/_", text("foo"), num(10)),
        ExecutionError::UnsupportedBinaryOperator("div", "foo".into(), Value::Int(10)),
    );
}

#[test]
fn test_invalid_rem() {
    check_error(
        bin("_%_", text("foo"), num(10)),
        ExecutionError::UnsupportedBinaryOperator("rem", "foo".into(), Value::Int(10)),
    );
}

#[test]
fn out_of_bound_list_access() {
    let ctx = ctx_with(vec![("list", Value::list(ListStorage::Object(vec![])))]);
    let result = run(&bin("_[_]", id("list"), num(10)), &ctx);
    assert_eq!(result, Err(ExecutionError::IndexOutOfBounds(Value::Int(10))));
}

#[test]
fn out_of_bound_list_access_negative() {
    let ctx = ctx_with(vec![("list", Value::list(ListStorage::Object(vec![])))]);
    let result = run(&bin("_[_]", id("list"), num(-1)), &ctx);
    assert_eq!(result, Err(ExecutionError::IndexOutOfBounds(Value::Int(-1))));
}

#[test]
fn list_access_uint() {
    let ctx = ctx_with(vec![(
        "list",
        Value::list(ListStorage::Object(vec![1i64.into(), 2i64.into()])),
    )]);
    let result = run(&bin("_[_]", id("list"), uint(1)), &ctx);
    assert_eq!(result, Ok(Value::Int(2)));
}

#[test]
fn reference_to_value() {
    let test = "example".to_string();
    let direct: Value = test.as_str().into();
    assert_eq!(direct, Value::String(Arc::new(String::from("example"))));

    let indirect: Value = vec![Value::from(test.as_str())].into();
    assert_eq!(
        indirect,
        Value::list(ListStorage::Object(vec![Value::String(Arc::new(String::from("example")))]))
    );
}

#[test]
fn test_short_circuit_and() {
    let ctx = ctx_with(vec![("data", entries(vec![]))]);
    let expr = bin(
        "_&&_",
        has(id("data"), "x"),
        method(select(id("data"), "x"), "startsWith", vec![text("foo")]),
    );
    let value = run(&expr, &ctx);
    assert!(value.is_ok(), "The AND expression should support short-circuit evaluation.");
    assert_eq!(value, Ok(Value::Bool(false)));
}

#[test]
fn test_or_ignores_err_when_short_circuiting() {
    let ctx = ctx_with(vec![("foo", Value::Int(42)), ("bar", Value::Int(42))]);
    let value = run(&bin("_||_", id("foo"), bin("_>_", id("bar"), num(0))), &ctx);
    assert_eq!(value, Ok(true.into()));

    let value = run(&bin("_||_", id("foo"), bin("_<_", id("bar"), num(0))), &ctx);
    assert!(value.is_err());
}

#[test]
fn test_and_ignores_err_when_short_circuiting() {
    let ctx = ctx_with(vec![("foo", Value::Int(42)), ("bar", Value::Int(42))]);
    let value = run(&bin("_&&_", id("foo"), bin("_<_", id("bar"), num(0))), &ctx);
    assert_eq!(value, Ok(false.into()));

    let value = run(&bin("_&&_", id("foo"), bin("_>_", id("bar"), num(0))), &ctx);
    assert!(value.is_err());
}

#[test]
fn invalid_int_math() {
    let cases = vec![
        (bin("_/_", num(1), num(0)), ExecutionError::DivisionByZero(1i64.into())),
        (bin("_%_", num(1), num(0)), ExecutionError::RemainderByZero(1i64.into())),
        (
            bin("_+_", num(i64::MAX), num(1)),
            ExecutionError::Overflow("add", i64::MAX.into(), 1i64.into()),
        ),
        (
            bin("_-_", num(i64::MIN), num(1)),
            ExecutionError::Overflow("sub", i64::MIN.into(), 1i64.into()),
        ),
        (
            bin("_*_", num(i64::MAX), num(2)),
            ExecutionError::Overflow("mul", i64::MAX.into(), 2i64.into()),
        ),
        (
            bin("_/_", num(i64::MIN), num(-1)),
            ExecutionError::Overflow("div", i64::MIN.into(), (-1i64).into()),
        ),
        (
            bin("_%_", num(i64::MIN), num(-1)),
            ExecutionError::Overflow("rem", i64::MIN.into(), (-1i64).into()),
        ),
    ];
    for (expr, err) in cases {
        check_error(expr, err);
    }
}

#[test]
fn invalid_uint_math() {
    let cases = vec![
        (bin("_/_", uint(1), uint(0)), ExecutionError::DivisionByZero(1u64.into())),
        (bin("_%_", uint(1), uint(0)), ExecutionError::RemainderByZero(1u64.into())),
        (
            bin("_+_", uint(u64::MAX), uint(1)),
            ExecutionError::Overflow("add", u64::MAX.into(), 1u64.into()),
        ),
        (
            bin("_-_", uint(0), uint(1)),
            ExecutionError::Overflow("sub", 0u64.into(), 1u64.into()),
        ),
        (
            bin("_*_", uint(u64::MAX), uint(2)),
            ExecutionError::Overflow("mul", u64::MAX.into(), 2u64.into()),
        ),
    ];
    for (expr, err) in cases {
        check_error(expr, err);
    }
}

#[test]
fn test_index_missing_map_key() {
    let ctx = ctx_with(vec![("mymap", object_map(vec![("a", Value::Int(1))]))]);
    let result = run(&bin("_[_]", id("mymap"), text("missing")), &ctx);
    assert!(result.is_err(), "Should error on missing map key");
    assert_eq!(result, Err(ExecutionError::NoSuchKey(Arc::new("missing".to_string()))));
}

#[test]
fn namespaced_call_beats_a_same_named_variable() {
    let ctx = ctx_with(vec![
        ("math", Value::from("not a namespace")),
        ("s", Value::from("hello world")),
    ]);
    let r = run(&method(id("math"), "max", vec![num(2), num(3)]), &ctx);
    assert_eq!(Ok(Value::Int(3)), r);

    let r = run(&method(id("s"), "startsWith", vec![text("hello")]), &ctx);
    assert_eq!(Ok(Value::Bool(true)), r);

    let r = run(&method(id("math"), "min", vec![num(2), num(3)]), &ctx);
    assert!(matches!(
        r,
        Err(ExecutionError::UndeclaredReference(name)) if name.as_str() == "min"
    ));
}

fn host(token: u64) -> Value {
    Value::Opaque(Arc::new(Opaque::Host(HostObject {
        runtime_type: Arc::new("my_struct".to_string()),
        token,
    })))
}

#[test]
fn test_opaque_fn() {
    let ctx = ctx_with(vec![("mine", host(7))]);
    let r = run(&method(id("mine"), "myFn", vec![]), &ctx);
    assert_eq!(Ok(Value::from("value 7")), r);
}

#[test]
fn opaque_eq() {
    let ctx = ctx_with(vec![("v1", host(1)), ("v1b", host(1)), ("v2", host(2))]);
    assert_eq!(run(&bin("_==_", id("v2"), id("v1")), &ctx), Ok(false.into()));
    assert_eq!(run(&bin("_==_", id("v1"), id("v1b")), &ctx), Ok(true.into()));
    assert_eq!(run(&bin("_==_", id("v2"), id("v2")), &ctx), Ok(true.into()));
}

fn opt(v: Value) -> Value {
    Value::Opaque(Arc::new(Opaque::Optional(OptionalValue::of(v))))
}

fn opt_none() -> Value {
    Value::Opaque(Arc::new(Opaque::Optional(OptionalValue::none())))
}

fn ints(v: Vec<i64>) -> Value {
    Value::list(ListStorage::Object(v.into_iter().map(Value::Int).collect()))
}

#[test]
fn test_optional() {
    let empty = Context::default();
    assert_eq!(run(&none_call(), &empty), Ok(opt_none()));
    assert_eq!(run(&of_call(num(1)), &empty), Ok(opt(Value::Int(1))));
    let non_zero = |i: i64| method(id("optional"), "ofNonZeroValue", vec![num(i)]);
    assert_eq!(run(&non_zero(0), &empty), Ok(opt_none()));
    assert_eq!(run(&non_zero(1), &empty), Ok(opt(Value::Int(1))));
    assert_eq!(run(&method(of_call(num(1)), "value", vec![]), &empty), Ok(Value::Int(1)));
    assert_eq!(
        run(&method(none_call(), "value", vec![]), &empty),
        Err(ExecutionError::FunctionError {
            function: "value".to_string(),
            message: "optional.none() dereference".to_string()
        })
    );
    assert_eq!(run(&method(of_call(num(1)), "hasValue", vec![]), &empty), Ok(Value::Bool(true)));
    assert_eq!(run(&method(none_call(), "hasValue", vec![]), &empty), Ok(Value::Bool(false)));
    assert_eq!(
        run(&method(of_call(num(1)), "or", vec![of_call(num(2))]), &empty),
        Ok(opt(Value::Int(1)))
    );
    assert_eq!(
        run(&method(none_call(), "or", vec![of_call(num(2))]), &empty),
        Ok(opt(Value::Int(2)))
    );
    assert_eq!(run(&method(none_call(), "or", vec![none_call()]), &empty), Ok(opt_none()));
    assert_eq!(
        run(&method(of_call(num(1)), "orValue", vec![num(5)]), &empty),
        Ok(Value::Int(1))
    );
    assert_eq!(run(&method(none_call(), "orValue", vec![num(5)]), &empty), Ok(Value::Int(5)));

    let ctx = ctx_with(vec![("msg", entries(vec![(Key::from("field"), Value::from("value"))]))]);
    let opt_field = |e: Expression| bin("_?._", e, text("field"));
    assert_eq!(run(&opt_field(id("msg")), &ctx), Ok(opt(Value::from("value"))));
    assert_eq!(run(&opt_field(of_call(id("msg"))), &ctx), Ok(opt(Value::from("value"))));
    assert_eq!(run(&opt_field(none_call()), &ctx), Ok(opt_none()));
    assert_eq!(
        run(&method(opt_field(of_call(id("msg"))), "orValue", vec![text("default")]), &ctx),
        Ok(Value::from("value"))
    );
    assert_eq!(
        run(&method(opt_field(none_call()), "orValue", vec![text("default")]), &ctx),
        Ok(Value::from("default"))
    );

    let map_ctx = ctx_with(vec![("mymap", object_map(vec![("a", Value::Int(1))]))]);
    let at = |k: &str| bin("_[?_]", id("mymap"), text(k));
    assert_eq!(run(&method(at("missing"), "orValue", vec![num(99)]), &map_ctx), Ok(Value::Int(99)));
    assert_eq!(run(&method(at("missing"), "hasValue", vec![]), &map_ctx), Ok(Value::Bool(false)));
    assert_eq!(run(&method(at("a"), "orValue", vec![num(99)]), &map_ctx), Ok(Value::Int(1)));
    assert_eq!(run(&method(at("a"), "hasValue", vec![]), &map_ctx), Ok(Value::Bool(true)));

    let list_ctx = ctx_with(vec![("mylist", ints(vec![1, 2, 3]))]);
    let item = |i: i64| bin("_[?_]", id("mylist"), num(i));
    assert_eq!(run(&method(item(10), "orValue", vec![num(99)]), &list_ctx), Ok(Value::Int(99)));
    assert_eq!(run(&method(item(1), "orValue", vec![num(99)]), &list_ctx), Ok(Value::Int(2)));

    let three = || of_call(list(vec![num(1), num(2), num(3)]));
    assert_eq!(
        run(&method(bin("_[_]", three(), num(1)), "orValue", vec![num(99)]), &empty),
        Ok(Value::Int(2))
    );
    assert_eq!(
        run(&method(bin("_[_]", three(), num(4)), "orValue", vec![num(99)]), &empty),
        Ok(Value::Int(99))
    );
    assert_eq!(
        run(&method(bin("_[_]", none_call(), num(1)), "orValue", vec![num(99)]), &empty),
        Ok(Value::Int(99))
    );
    assert_eq!(
        run(&method(bin("_[?_]", three(), num(1)), "orValue", vec![num(99)]), &empty),
        Ok(Value::Int(2))
    );

    let l = opt_list(vec![num(1), num(2), of_call(num(3)), num(4)], vec![2]);
    assert_eq!(run(&l, &empty), Ok(ints(vec![1, 2, 3, 4])));
    let l = opt_list(vec![num(1), num(2), none_call(), num(4)], vec![2]);
    assert_eq!(run(&l, &empty), Ok(ints(vec![1, 2, 4])));
    let l = opt_list(vec![of_call(num(1)), none_call(), of_call(num(3))], vec![0, 1, 2]);
    assert_eq!(run(&l, &empty), Ok(ints(vec![1, 3])));
    let l = opt_list(vec![num(1), at("missing"), num(3)], vec![1]);
    assert_eq!(run(&l, &map_ctx), Ok(ints(vec![1, 3])));
    let l = opt_list(vec![num(1), at("a"), num(3)], vec![1]);
    assert_eq!(run(&l, &map_ctx), Ok(ints(vec![1, 1, 3])));
    let l = opt_list(vec![none_call(), none_call()], vec![0, 1]);
    assert_eq!(run(&l, &empty), Ok(ints(vec![])));

    let m = map(vec![
        (text("a"), num(1), false),
        (text("b"), num(2), false),
        (text("c"), of_call(num(3)), true),
    ]);
    let want = object_map(vec![("a", Value::Int(1)), ("b", Value::Int(2)), ("c", Value::Int(3))]);
    assert_eq!(run(&m, &empty), Ok(want));
    let m = map(vec![
        (text("a"), num(1), false),
        (text("b"), num(2), false),
        (text("c"), none_call(), true),
    ]);
    let want = object_map(vec![("a", Value::Int(1)), ("b", Value::Int(2))]);
    assert_eq!(run(&m, &empty), Ok(want));
    let m = map(vec![
        (text("a"), num(1), false),
        (text("b"), none_call(), true),
        (text("c"), of_call(num(3)), true),
    ]);
    let want = object_map(vec![("a", Value::Int(1)), ("c", Value::Int(3))]);
    assert_eq!(run(&m, &empty), Ok(want));
    let m = map(vec![(text("a"), num(1), false), (text("b"), at("missing"), true)]);
    assert_eq!(run(&m, &map_ctx), Ok(object_map(vec![("a", Value::Int(1))])));
    let m = map(vec![(text("x"), num(10), false), (text("y"), at("a"), true)]);
    let want = object_map(vec![("x", Value::Int(10)), ("y", Value::Int(1))]);
    assert_eq!(run(&m, &map_ctx), Ok(want));
    let m = map(vec![(text("a"), none_call(), true), (text("b"), none_call(), true)]);
    assert_eq!(run(&m, &empty), Ok(object_map(vec![])));
}

#[test]
fn test_empty_struct() {
    let value = run(&strukt("cel.MyStruct", vec![]), &Context::default()).unwrap();
    match value {
        Value::Struct(s) => assert_eq!(s.name(), "cel.MyStruct"),
        _ => panic!("This can't be!"),
    }
}

#[test]
fn test_struct() {
    let expr = strukt(
        "cel.Problem",
        vec![
            ("solved", bin("_!=_", num(0), null())),
            ("answer", bin("_*_", num(21), num(2))),
        ],
    );
    match run(&expr, &Context::default()).unwrap() {
        Value::Struct(s) => {
            assert_eq!(s.name(), "cel.Problem");
            assert_eq!(s.field_value("solved"), Some(&Value::Bool(true)));
            assert_eq!(s.field_value("answer"), Some(&Value::Int(42)));
            assert_eq!(s.field_values().len(), 2);
        }
        _ => panic!("This can't be!"),
    }
}

#[test]
fn test_struct_field_access() {
    let expr = select(strukt("cel.MyStruct", vec![("some", text("value"))]), "some");
    assert_eq!(run(&expr, &Context::default()), Ok(Value::from("value")));
}

#[test]
fn test_struct_no_such_field() {
    let expr = strukt("cel.MyStruct", vec![("not_here", text("value"))]);
    assert_eq!(
        run(&expr, &Context::default()),
        Err(ExecutionError::NoSuchKey(Arc::new(
            "field `not_here` on struct `cel.MyStruct`".to_string()
        )))
    );
}

#[test]
fn test_struct_with_default() {
    let expr = select(strukt("cel.Defaulted", vec![("some", text("value"))]), "here");
    assert_eq!(run(&expr, &Context::default()), Ok(Value::from("yes")));
}

#[test]
fn test_struct_with_default_overwritten() {
    let expr = select(
        strukt("cel.Defaulted", vec![("some", text("value")), ("here", text("totally"))]),
        "here",
    );
    assert_eq!(run(&expr, &Context::default()), Ok(Value::from("totally")));
}

fn my_struct() -> Value {
    let mut s = CelStruct::new("cel.MyStruct".to_string());
    s.add_field_value("name".to_string(), Value::from("test"));
    s.add_field_value("value".to_string(), Value::Int(42));
    Value::Struct(Arc::new(s))
}

#[test]
fn test_struct_has_macro() {
    let ctx = ctx_with(vec![("my_var", my_struct())]);
    assert_eq!(run(&has(id("my_var"), "name"), &ctx), Ok(Value::Bool(true)));
    assert_eq!(run(&has(id("my_var"), "missing"), &ctx), Ok(Value::Bool(false)));
    let lit = strukt("cel.MyStruct", vec![("name", text("foo")), ("value", num(1))]);
    assert_eq!(run(&has(lit, "name"), &ctx), Ok(Value::Bool(true)));
    assert_eq!(run(&has(strukt("cel.MyStruct", vec![]), "name"), &ctx), Ok(Value::Bool(false)));
}

#[test]
fn test_struct_no_such_field_access() {
    let expr = select(strukt("cel.MyStruct", vec![("some", text("value"))]), "not_here");
    assert_eq!(
        run(&expr, &Context::default()),
        Err(ExecutionError::NoSuchKey(Arc::new("not_here".to_string())))
    );
}

#[test]
fn unknown_struct() {
    let expr = select(strukt("other.MyStruct", vec![("some", text("value"))]), "not_here");
    assert_eq!(
        run(&expr, &Context::default()),
        Err(ExecutionError::UnexpectedType {
            got: String::from("other.MyStruct"),
            want: String::from("known struct")
        })
    );
}

#[test]
fn add_struct_variable_to_context() {
    let ctx = ctx_with(vec![("my_var", my_struct())]);
    let expr = bin(
        "_+_",
        bin("_+_", select(id("my_var"), "name"), text(" ")),
        call("string", vec![select(id("my_var"), "value")]),
    );
    assert_eq!(run(&expr, &ctx), Ok(Value::from("test 42")));
}

// -- comprehensions ----------------------------------------------------------

fn comprehension(
    range: Expression,
    init: Expression,
    cond: Expression,
    step: Expression,
    result: Expression,
) -> Expression {
    ex(Expr::Comprehension(Box::new(ComprehensionExpr {
        iter_range: range,
        iter_var: "x".to_string(),
        accu_var: "@result".to_string(),
        accu_init: init,
        loop_cond: cond,
        loop_step: step,
        result,
    })))
}

fn accu() -> Expression {
    id("@result")
}

fn map_macro(range: Expression, f: Expression) -> Expression {
    comprehension(
        range,
        list(vec![]),
        boolean(true),
        bin("_+_", accu(), list(vec![f])),
        accu(),
    )
}

fn filter_macro(range: Expression, c: Expression) -> Expression {
    comprehension(
        range,
        list(vec![]),
        boolean(true),
        call("_?_:_", vec![c, bin("_+_", accu(), list(vec![id("x")])), accu()]),
        accu(),
    )
}

fn all_macro(range: Expression, p: Expression) -> Expression {
    comprehension(
        range,
        boolean(true),
        call("@not_strictly_false", vec![accu()]),
        bin("_&&_", accu(), p),
        accu(),
    )
}

fn exists_macro(range: Expression, p: Expression) -> Expression {
    comprehension(
        range,
        boolean(false),
        call("@not_strictly_false", vec![call("!_", vec![accu()])]),
        bin("_||_", accu(), p),
        accu(),
    )
}

fn one_to_four() -> Expression {
    list(vec![num(1), num(2), num(3), num(4)])
}

#[test]
fn map_and_filter_build_lists() {
    let ctx = Context::default();
    let doubled = map_macro(one_to_four(), bin("_*_", id("x"), num(2)));
    assert_eq!(run(&doubled, &ctx), Ok(ints(vec![2, 4, 6, 8])));
    let even = filter_macro(
        one_to_four(),
        bin("_==_", bin("_%_", id("x"), num(2)), num(0)),
    );
    assert_eq!(run(&even, &ctx), Ok(ints(vec![2, 4])));
    let over_map = map_macro(map(vec![(text("a"), num(1), false)]), id("x"));
    assert_eq!(
        run(&over_map, &ctx),
        Ok(Value::from(vec![Value::from("a")]))
    );
    let failing = map_macro(one_to_four(), bin("_/_", id("x"), num(0)));
    assert_eq!(run(&failing, &ctx), Err(ExecutionError::DivisionByZero(Value::Int(1))));
    let guard = filter_macro(one_to_four(), id("x"));
    assert_eq!(run(&guard, &ctx), Err(ExecutionError::NoSuchOverload));
}

#[test]
fn all_and_exists_stop_early() {
    let ctx = Context::default();
    let p = || bin("_<_", id("x"), num(3));
    assert_eq!(run(&all_macro(one_to_four(), p()), &ctx), Ok(Value::Bool(false)));
    assert_eq!(run(&exists_macro(one_to_four(), p()), &ctx), Ok(Value::Bool(true)));
    assert_eq!(run(&all_macro(list(vec![]), p()), &ctx), Ok(Value::Bool(true)));
    assert_eq!(run(&exists_macro(list(vec![]), p()), &ctx), Ok(Value::Bool(false)));
    // The second element would fail, and is not reached.
    let q = || bin("_>_", bin("_/_", num(10), bin("_-_", id("x"), num(2))), num(0));
    assert_eq!(run(&all_macro(one_to_four(), q()), &ctx), Ok(Value::Bool(false)));
    assert_eq!(
        run(&exists_macro(one_to_four(), q()), &ctx),
        Err(ExecutionError::DivisionByZero(Value::Int(10)))
    );
}

#[test]
fn a_general_comprehension_folds() {
    let sum = comprehension(
        one_to_four(),
        num(0),
        boolean(true),
        bin("_+_", accu(), id("x")),
        accu(),
    );
    assert_eq!(run(&sum, &Context::default()), Ok(Value::Int(10)));
    let stopped = comprehension(
        one_to_four(),
        num(0),
        bin("_<_", accu(), num(3)),
        bin("_+_", accu(), id("x")),
        bin("_*_", accu(), num(100)),
    );
    assert_eq!(run(&stopped, &Context::default()), Ok(Value::Int(300)));
    let not_iterable = comprehension(num(1), num(0), boolean(true), accu(), accu());
    assert_eq!(run(&not_iterable, &Context::default()), Err(ExecutionError::NoSuchOverload));
}

#[test]
fn comprehension_variables_shadow_and_end() {
    let ctx = ctx_with(vec![("x", Value::from("outer"))]);
    let inner = map_macro(one_to_four(), id("x"));
    let expr = bin("_+_", inner, list(vec![id("x")]));
    assert_eq!(
        run(&expr, &ctx),
        Ok(Value::from(vec![
            Value::Int(1),
            Value::Int(2),
            Value::Int(3),
            Value::Int(4),
            Value::from("outer"),
        ]))
    );
    // A comprehension variable is a value, never a namespace.
    let expr = map_macro(
        list(vec![of_call(num(1))]),
        method(id("x"), "hasValue", vec![]),
    );
    assert_eq!(run(&expr, &ctx), Ok(Value::from(vec![Value::Bool(true)])));
}

#[test]
fn undeclared_names_are_errors() {
    let ctx = Context::default();
    assert_eq!(
        run(&id("nobody"), &ctx),
        Err(ExecutionError::UndeclaredReference(Arc::new("nobody".to_string())))
    );
    assert_eq!(
        run(&call("nothing", vec![num(1)]), &ctx),
        Err(ExecutionError::UndeclaredReference(Arc::new("nothing".to_string())))
    );
}

#[test]
fn a_map_literal_keeps_the_last_value_in_the_first_place() {
    let m = map(vec![
        (text("a"), num(1), false),
        (text("b"), num(2), false),
        (text("a"), num(3), false),
    ]);
    match run(&m, &Context::default()).unwrap() {
        Value::CelMap(m) => {
            assert_eq!(m.len(), 2);
            let (k, v) = m.entry(0).unwrap();
            assert_eq!((k, v), (Key::from("a"), Value::Int(3)));
            let (k, v) = m.entry(1).unwrap();
            assert_eq!((k, v), (Key::from("b"), Value::Int(2)));
        }
        other => panic!("{other:?}"),
    }
    let bad = map(vec![(list(vec![]), num(1), false)]);
    assert_eq!(
        run(&bad, &Context::default()),
        Err(ExecutionError::UnsupportedKeyType(ints(vec![])))
    );
}

#[test]
fn conditional_and_unary_operators() {
    let ctx = Context::default();
    let c = |b: Expression| call("_?_:_", vec![b, num(1), bin("_/_", num(1), num(0))]);
    assert_eq!(run(&c(boolean(true)), &ctx), Ok(Value::Int(1)));
    assert_eq!(run(&c(boolean(false)), &ctx), Err(ExecutionError::DivisionByZero(Value::Int(1))));
    assert_eq!(run(&c(num(1)), &ctx), Err(ExecutionError::NoSuchOverload));
    assert_eq!(run(&call("!_", vec![boolean(true)]), &ctx), Ok(Value::Bool(false)));
    assert_eq!(run(&call("!_", vec![num(1)]), &ctx), Err(ExecutionError::NoSuchOverload));
    assert_eq!(run(&call("-_", vec![num(5)]), &ctx), Ok(Value::Int(-5)));
    assert_eq!(
        run(&call("-_", vec![num(i64::MIN)]), &ctx),
        Err(ExecutionError::Overflow("negate", Value::Int(i64::MIN), Value::Int(0)))
    );
    assert_eq!(
        run(&call("@not_strictly_false", vec![id("nobody")]), &ctx),
        Ok(Value::Bool(true))
    );
}

#[test]
fn membership_and_field_errors() {
    let ctx = Context::default();
    assert_eq!(run(&bin("@in", num(2), one_to_four()), &ctx), Ok(Value::Bool(true)));
    assert_eq!(run(&bin("@in", uint(2), one_to_four()), &ctx), Ok(Value::Bool(true)));
    assert_eq!(run(&bin("@in", num(9), one_to_four()), &ctx), Ok(Value::Bool(false)));
    let m = || map(vec![(num(1), text("one"), false)]);
    assert_eq!(run(&bin("@in", num(1), m()), &ctx), Ok(Value::Bool(true)));
    assert_eq!(run(&bin("@in", uint(1), m()), &ctx), Ok(Value::Bool(false)));
    assert_eq!(run(&bin("_[_]", m(), uint(1)), &ctx), Ok(Value::from("one")));
    assert_eq!(
        run(&bin("@in", list(vec![]), m()), &ctx),
        Err(ExecutionError::UnsupportedKeyType(ints(vec![])))
    );
    assert_eq!(run(&bin("@in", num(1), text("1")), &ctx), Err(ExecutionError::NoSuchOverload));
    assert_eq!(
        run(&select(one_to_four(), "f"), &ctx),
        Err(ExecutionError::UnexpectedType {
            got: "string".to_string(),
            want: "int|uint".to_string()
        })
    );
    assert_eq!(run(&select(num(1), "f"), &ctx), Err(ExecutionError::NoSuchOverload));
    assert_eq!(
        run(&bin("_[_]", strukt("cel.MyStruct", vec![]), num(1)), &ctx).is_err(),
        true
    );
    assert_eq!(
        run(&bin("_?._", m(), num(1)), &ctx),
        Err(ExecutionError::function_error("_?._", "field must be string"))
    );
    let miss = bin("_?._", of_call(m()), text("f"));
    assert_eq!(run(&miss, &ctx), Ok(opt(opt_none())));
}

#[test]
fn doubles_are_computed_by_the_program() {
    let ctx = Context::default();
    let v = run(&bin("_+_", dbl(1.5), dbl(2.25)), &ctx);
    assert_eq!(v, Ok(Value::Float(3.75f64.to_bits())));
    let v = run(&bin("_%_", dbl(1.5), dbl(2.25)), &ctx);
    assert_eq!(
        v,
        Err(ExecutionError::UnsupportedBinaryOperator(
            "rem",
            Value::Float(1.5f64.to_bits()),
            Value::Float(2.25f64.to_bits())
        ))
    );
    let v = run(&call("-_", vec![dbl(1.5)]), &ctx);
    assert_eq!(v, Ok(Value::Float((-1.5f64).to_bits())));
}

#[test]
fn an_evaluation_is_resumed_where_it_stopped() {
    let expr = bin("_+_", call("f", vec![num(1)]), call("g", vec![num(2)]));
    let ctx = Context::default();
    match Value::resolve(&expr, &ctx, &vec![]) {
        Eval::Ask(Request::Overload { name, args }) => {
            assert_eq!(name, "f");
            assert_eq!(args, vec![Value::Int(1)]);
        }
        other => panic!("{other:?}"),
    }
    let replies = vec![Reply::Declined];
    match Value::resolve(&expr, &ctx, &replies) {
        Eval::Ask(Request::Function { name, .. }) => assert_eq!(name, "f"),
        other => panic!("{other:?}"),
    }
    let replies = vec![Reply::Value(Value::Int(10))];
    match Value::resolve(&expr, &ctx, &replies) {
        Eval::Ask(Request::Overload { name, .. }) => assert_eq!(name, "g"),
        other => panic!("{other:?}"),
    }
    let replies = vec![Reply::Value(Value::Int(10)), Reply::Value(Value::Int(5))];
    match Value::resolve(&expr, &ctx, &replies) {
        Eval::Done(v) => assert_eq!(v, Value::Int(15)),
        other => panic!("{other:?}"),
    }
    let replies = vec![Reply::Failed(ExecutionError::NoSuchOverload)];
    match Value::resolve(&expr, &ctx, &replies) {
        Eval::Fail(e) => assert_eq!(e, ExecutionError::NoSuchOverload),
        other => panic!("{other:?}"),
    }
}

#[test]
fn expressions_in_turn_are_a_list() {
    let ctx = Context::default();
    match Value::resolve_all(&vec![num(1), text("a")], &ctx, &vec![]) {
        Eval::Done(v) => assert_eq!(v, Value::from(vec![Value::Int(1), Value::from("a")])),
        other => panic!("{other:?}"),
    }
}

#[test]
fn an_all_int_literal_stays_unboxed() {
    match run(&one_to_four(), &Context::default()).unwrap() {
        Value::List(l) => assert!(l.is_ints()),
        other => panic!("{other:?}"),
    }
    match run(&list(vec![num(1), text("a")]), &Context::default()).unwrap() {
        Value::List(l) => assert!(!l.is_ints()),
        other => panic!("{other:?}"),
    }
    let whole: ListRef = ListRef::from_vec(vec![]);
    assert!(whole.is_empty());
}

#[test]
fn cross_type_ground_truth() {
    let neg = |e: Expression| call("-_", vec![e]);
    let stamp = |s: &str| call("timestamp", vec![text(s)]);
    let yes = || Ok(Value::Bool(true));
    let no = || Ok(Value::Bool(false));
    let cases: [(Expression, Result<Value, ()>); 30] = [
        (bin("_==_", num(1), uint(1)), yes()),
        (bin("_!=_", num(1), uint(1)), no()),
        (bin("_<_", num(1), uint(2)), yes()),
        (bin("_<_", uint(2), num(1)), no()),
        (bin("_==_", uint(1), dbl(1.0)), yes()),
        (bin("_<_", uint(1), dbl(2.0)), yes()),
        (bin("_<_", dbl(2.0), uint(1)), no()),
        (bin("_<_", uint(1), num(-1)), no()),
        (bin("_<_", num(-1), uint(1)), yes()),
        (bin("_==_", uint(18446744073709551615), num(-1)), no()),
        (bin("_>_", uint(18446744073709551615), num(1)), yes()),
        (bin("_==_", num(9007199254740993), dbl(9007199254740992.0)), yes()),
        (bin("_==_", num(1), text("ab")), no()),
        (bin("_!=_", num(1), text("ab")), yes()),
        (bin("_==_", boolean(true), num(1)), no()),
        (bin("_==_", num(1), boolean(true)), no()),
        (bin("_==_", num(1), stamp("2020-01-01T00:00:00Z")), no()),
        (
            bin("_==_", stamp("2020-01-01T00:00:00Z"), call("duration", vec![text("1s")])),
            no(),
        ),
        (bin("_<_", num(1), text("ab")), Err(())),
        (bin("_<_", num(1), boolean(true)), Err(())),
        (bin("_||_", num(1), boolean(true)), yes()),
        (bin("_||_", boolean(true), num(1)), yes()),
        (bin("_&&_", num(1), boolean(false)), no()),
        (bin("_&&_", boolean(false), num(1)), no()),
        (bin("_||_", num(1), boolean(false)), Err(())),
        (bin("_&&_", num(1), boolean(true)), Err(())),
        (bin("_<_", text("ab"), text("cd")), yes()),
        (call("_?_:_", vec![boolean(true), uint(1), uint(2)]), Ok(Value::UInt(1))),
        (neg(uint(1)), Err(())),
        (neg(text("ab")), Err(())),
    ];
    for (i, (expr, want)) in cases.into_iter().enumerate() {
        let got = run(&expr, &Context::default()).map_err(|_| ());
        assert_eq!(got, want, "number {i}");
    }
}

#[test]
fn variables_held_as_leaves_are_asked_as_leaves() {
    let mut heap = CelHeap::new();
    let mut leaf = |v: &Value| Value::Interned(intern_leaf(&mut heap, v).unwrap().unwrap());
    let m = |k: Key| entries(vec![(k, Value::Bool(true))]);
    let ctx = ctx_with(vec![
        ("xs", leaf(&ints(vec![1, 2]))),
        ("ys", leaf(&Value::from(vec![Value::Int(1), Value::from("a")]))),
        ("i", leaf(&m(Key::Int(1)))),
        ("u", leaf(&m(Key::Uint(1)))),
        ("name", leaf(&Value::from("k"))),
        ("map", m(Key::from("k"))),
        ("long", Value::Duration(Duration::new(i64::MAX / 1000, 0).unwrap())),
    ]);
    // A list of unboxed integers holds integers alone; any other list what equals.
    assert_eq!(run(&bin("@in", num(1), id("xs")), &ctx), Ok(Value::Bool(true)));
    assert_eq!(run(&bin("@in", uint(1), id("xs")), &ctx), Ok(Value::Bool(false)));
    assert_eq!(run(&bin("@in", uint(1), id("ys")), &ctx), Ok(Value::Bool(true)));
    assert_eq!(
        run(&bin("@in", uint(1), list(vec![num(1), num(2)])), &ctx),
        Ok(Value::Bool(true))
    );
    assert_eq!(
        run(&bin("@in", id("long"), id("ys")), &ctx),
        Err(ExecutionError::NoSuchOverload)
    );
    let picked = call("_?_:_", vec![boolean(true), id("xs"), id("ys")]);
    assert_eq!(run(&bin("@in", uint(1), picked), &ctx), Ok(Value::Bool(false)));
    // A map holds its exact keys.
    assert_eq!(run(&bin("@in", num(1), id("i")), &ctx), Ok(Value::Bool(true)));
    assert_eq!(run(&bin("@in", uint(1), id("i")), &ctx), Ok(Value::Bool(false)));
    // Leaves are equal as the runtime has it.
    assert_eq!(run(&bin("_==_", id("i"), id("u")), &ctx), Ok(Value::Bool(true)));
    assert_eq!(
        run(
            &bin(
                "_==_",
                map(vec![(num(1), boolean(true), false)]),
                map(vec![(uint(1), boolean(true), false)])
            ),
            &ctx
        ),
        Ok(Value::Bool(false))
    );
    // A field name is a string in public form.
    assert_eq!(
        run(&bin("_?._", id("map"), text("k")), &ctx),
        Ok(opt(Value::Bool(true)))
    );
    assert_eq!(
        run(&bin("_?._", id("map"), id("name")), &ctx),
        Err(ExecutionError::function_error("_?._", "field must be string"))
    );
    assert_eq!(
        run(&bin("_[_]", id("map"), id("name")), &ctx),
        Ok(Value::Bool(true))
    );
}

#[test]
fn what_a_leaf_refers_to_stays_a_leaf() {
    let mut heap = CelHeap::new();
    let m = |k: Key| entries(vec![(k, Value::Bool(true))]);
    let both = vec![m(Key::Int(1)), m(Key::Uint(1))];
    let fields = entries(vec![
        (Key::from("i"), both[0].clone()),
        (Key::from("u"), both[1].clone()),
        (Key::from("xs"), ints(vec![1, 2])),
        (Key::Int(7), Value::from("seven")),
    ]);
    let mut leaf = |v: &Value| Value::Interned(intern_leaf(&mut heap, v).unwrap().unwrap());
    let ctx = ctx_with(vec![
        ("l", leaf(&Value::from(both.clone()))),
        ("p", Value::from(both)),
        ("m", leaf(&fields)),
        ("pm", fields),
    ]);
    let at = |c: &str, i: i64| bin("_[_]", id(c), num(i));
    // An element of a leaf is compared as the leaf that it is.
    assert_eq!(run(&bin("_==_", at("l", 0), at("l", 1)), &ctx), Ok(Value::Bool(true)));
    assert_eq!(run(&bin("_!=_", at("l", 0), at("l", 1)), &ctx), Ok(Value::Bool(false)));
    assert_eq!(run(&bin("_==_", at("p", 0), at("p", 1)), &ctx), Ok(Value::Bool(false)));
    // So is a field, and what a conditional picks of them.
    let fields = |c: &str| bin("_==_", select(id(c), "i"), bin("_[_]", id(c), text("u")));
    assert_eq!(run(&fields("m"), &ctx), Ok(Value::Bool(true)));
    assert_eq!(run(&fields("pm"), &ctx), Ok(Value::Bool(false)));
    let picked = call("_?_:_", vec![boolean(true), at("l", 0), at("p", 0)]);
    assert_eq!(run(&bin("_==_", picked, at("l", 1)), &ctx), Ok(Value::Bool(true)));
    assert_eq!(run(&bin("@in", uint(1), select(id("m"), "xs")), &ctx), Ok(Value::Bool(false)));
    assert_eq!(run(&bin("@in", uint(1), select(id("pm"), "xs")), &ctx), Ok(Value::Bool(true)));
    // What is found, and what is not, is what it is in public form.
    for c in ["m", "pm"] {
        assert_eq!(run(&bin("_[_]", id(c), uint(7)), &ctx), Ok(Value::from("seven")));
        assert_eq!(run(&has(id(c), "i"), &ctx), Ok(Value::Bool(true)));
        assert_eq!(run(&has(id(c), "z"), &ctx), Ok(Value::Bool(false)));
        assert_eq!(
            run(&select(id(c), "z"), &ctx),
            Err(ExecutionError::NoSuchKey(Arc::new("z".to_string())))
        );
        assert_eq!(
            run(&bin("_[_]", id(c), null()), &ctx),
            Err(ExecutionError::UnsupportedKeyType(Value::Null))
        );
    }
    for c in ["l", "p"] {
        assert_eq!(
            run(&at(c, 2), &ctx),
            Err(ExecutionError::IndexOutOfBounds(Value::Int(2)))
        );
        assert_eq!(
            run(&select(id(c), "f"), &ctx),
            Err(ExecutionError::UnexpectedType {
                got: "string".to_string(),
                want: "int|uint".to_string(),
            })
        );
        assert_eq!(run(&bin("_[?_]", id(c), num(2)), &ctx), Ok(optional_none()));
    }
    // A comprehension binds the elements as they are held.
    let all_equal = |c: &str| all_macro(id(c), bin("_==_", id("x"), at(c, 1)));
    assert_eq!(run(&all_equal("l"), &ctx), Ok(Value::Bool(true)));
    assert_eq!(run(&all_equal("p"), &ctx), Ok(Value::Bool(false)));
    // The result of a comprehension stays the leaf that it is.
    let result = comprehension(
        id("l"),
        num(0),
        boolean(true),
        bin("_+_", accu(), num(1)),
        at("l", 0),
    );
    assert_eq!(run(&bin("_==_", result, at("l", 1)), &ctx), Ok(Value::Bool(true)));
    // A literal holds values in public form.
    let rebuilt = |c: &str| bin("_==_", list(vec![at(c, 0)]), list(vec![at(c, 1)]));
    assert_eq!(run(&rebuilt("l"), &ctx), Ok(Value::Bool(false)));
}

#[test]
fn evaluation_does_not_go_past_an_unspecified_part() {
    let ctx = Context::default();
    let hole = || ex(Expr::Unspecified);
    let e = bin("_&&_", hole(), boolean(false));
    assert!(matches!(Value::resolve(&e, &ctx, &vec![]), Eval::Ask(Request::Unspecified)));
    let e = bin("_&&_", boolean(false), hole());
    assert!(matches!(Value::resolve(&e, &ctx, &vec![]), Eval::Done(Value::Bool(false))));
    let field = EntryExpr::StructField { field: "f".to_string(), value: num(1), optional: false };
    let e = ex(Expr::CelMap(MapExpr { entries: vec![field] }));
    assert!(matches!(Value::resolve(&e, &ctx, &vec![]), Eval::Ask(Request::Unspecified)));
}
