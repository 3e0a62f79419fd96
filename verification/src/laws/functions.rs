//! What the functions give that programs call, by what they are called with.

use crate::access::{
    as_bool, as_optional, expect_optional, key_value, optional_none, optional_of, optional_view,
    value_contains, value_field, value_has_field, value_index, value_iter, value_key, value_len,
    OptView,
};
use crate::ast::{is_variable, operator_of, Expr, Expression, LiteralValue, Operator};
use crate::compare::{compare_values, has_comparer, op_accepts, same_value, value_eq, value_order};
use crate::context::{root_scope, Context};
use crate::double::Order;
use crate::error::{err_eq, result_view, ExecutionError, ResolveResult};
use crate::key::{Key, KeyRef};
use crate::laws::ordering::{amount, kind_of, measure_of, values_are_ordered_by_their_measure};
use crate::laws::operators::{
    computes, every_operator_has_its_name, fits_duration, fits_int, fits_uint, is_quotient,
    names_an_operator, size, the_arithmetic_operators_refuse,
};
use crate::list::ListRef;
use crate::laws::members::has_key;
use crate::map::{lemma_position, CelMap};
use crate::model::{
    binary, compare, contains, index, iterated, negate, position, val_eq, val_len, BinOp, CmpOp,
    ErrV, OutV, ResV, TypeV, Val, ValueType,
};
use crate::ops::{
    binary_values, binary_values_ref, duration_binop, float_binop, int_binop, numeric_binop,
    timestamp_duration_binop, uint_binop, value_negate, Outcome,
};
use crate::resolve::{replies_view, Eval, Reply};
use crate::runtime::interned::{
    held_index, held_items, held_view, held_views, in_public, raised_to_execution,
};
use crate::semantics::{eval, EvalV, ReplyV};
use crate::time::{Duration, Timestamp};
use crate::value::{OptionalValue, TypeValue, Value};
use crate::laws::calls::{in_turn, lemma_args};
use crate::runtime::heap::CelHeap;
use crate::runtime::object::CelKind;
use crate::runtime::error::CelErrCode;
use crate::laws::equality::equality_is_symmetric;
use vstd::prelude::*;
use vstd::utf8::encode_utf8;

verus! {

/// Whether a value is in public form.
pub open spec fn is_public(v: Value) -> bool {
    !(v is Interned)
}

/// A value in public form stands for what it is built from.
pub proof fn a_value_stands_for_what_it_is(v: Value)
    ensures
        match v {
            Value::Null => v@ == Val::Null,
            Value::Bool(b) => v@ == Val::Bool(b),
            Value::Int(i) => v@ == Val::Int(i),
            Value::UInt(u) => v@ == Val::UInt(u),
            Value::Float(d) => v@ == Val::Double(d),
            Value::String(t) => v@ == Val::Str(t@),
            Value::Bytes(b) => v@ == Val::Bytes(b@),
            Value::Duration(d) => v@ == Val::Duration(d@),
            Value::Timestamp(t) => v@ == Val::Timestamp(t@),
            Value::List(l) => v@ == Val::List(l@),
            Value::CelMap(m) => v@ == Val::CelMap(m@),
            _ => true,
        },
{
}

/// A key stands for the value that it is built from.
pub proof fn a_key_stands_for_what_it_is(k: Key, r: KeyRef<'_>, v: Value)
    requires
        call_ensures(key_value, (&k,), v),
    ensures
        match k {
            Key::Int(i) => k@ == Val::Int(i),
            Key::Uint(u) => k@ == Val::UInt(u),
            Key::Bool(b) => k@ == Val::Bool(b),
            Key::String(t) => k@ == Val::Str(t@),
        },
        match r {
            KeyRef::Int(i) => r@ == Val::Int(i),
            KeyRef::Uint(u) => r@ == Val::UInt(u),
            KeyRef::Bool(b) => r@ == Val::Bool(b),
            KeyRef::String(t) => r@ == Val::Str(t@),
        },
        v@ == k@,
{
}

/// The public form of a value stands for the same, and what is public already is itself.
pub proof fn unpacking_keeps_the_value(v: Value, p: Value)
    requires
        call_ensures(Value::unpack, (&v,), p),
    ensures
        p@ == v@,
        is_public(p),
        is_public(v) ==> p == v,
{
}

/// Values in public form are compared for equality as the language has it, the same from
/// either side, and so is what two values stand for.
pub proof fn values_are_compared_for_equality(
    a: Value,
    b: Value,
    r: bool,
    back: bool,
    same: bool,
)
    requires
        call_ensures(value_eq, (&a, &b), r),
        call_ensures(value_eq, (&b, &a), back),
        call_ensures(same_value, (&a, &b), same),
    ensures
        is_public(a) && is_public(b) ==> r == val_eq(a@, b@) && back == r && same == r,
        same == val_eq(a@, b@),
        measure_of(a@) is Some && measure_of(a@) == measure_of(b@) ==> same == (amount(a@) == amount(
            b@,
        )),
        a@ is List && b@ is List && same ==> a@->List_0.len() == b@->List_0.len(),
        a@ is Str && b@ is Str ==> same == (a@->Str_0 == b@->Str_0),
        a@ is Bytes && b@ is Bytes ==> same == (a@->Bytes_0 == b@->Bytes_0),
{
    equality_is_symmetric(a@, b@);
    if measure_of(a@) is Some && measure_of(a@) == measure_of(b@) {
        values_are_ordered_by_their_measure(a@, b@);
    }
}

/// Values are ordered by what measures them, from both sides.
pub proof fn values_are_compared_for_order(
    a: Value,
    b: Value,
    o: Option<Order>,
    less: Result<Value, ExecutionError>,
    less_equals: Result<Value, ExecutionError>,
    greater: Result<Value, ExecutionError>,
    greater_equals: Result<Value, ExecutionError>,
)
    requires
        call_ensures(value_order, (&a, &b), o),
        call_ensures(compare_values, (CmpOp::Less, &a, &b), less),
        call_ensures(compare_values, (CmpOp::LessEquals, &a, &b), less_equals),
        call_ensures(compare_values, (CmpOp::Greater, &a, &b), greater),
        call_ensures(compare_values, (CmpOp::GreaterEquals, &a, &b), greater_equals),
    ensures
        measure_of(a@) is Some && measure_of(a@) == measure_of(b@) ==> {
            let (x, y) = (amount(a@), amount(b@));
            &&& o == Some(
                if x < y {
                    Order::Less
                } else if x == y {
                    Order::Equal
                } else {
                    Order::Greater
                },
            )
            &&& result_view(less) == Ok::<Val, ErrV>(Val::Bool(x < y))
            &&& result_view(less_equals) == Ok::<Val, ErrV>(Val::Bool(x <= y))
            &&& result_view(greater) == Ok::<Val, ErrV>(Val::Bool(x > y))
            &&& result_view(greater_equals) == Ok::<Val, ErrV>(Val::Bool(x >= y))
        },
        result_view(less) == compare(CmpOp::Less, a@, b@),
        result_view(less_equals) == compare(CmpOp::LessEquals, a@, b@),
        result_view(greater) == compare(CmpOp::Greater, a@, b@),
        result_view(greater_equals) == compare(CmpOp::GreaterEquals, a@, b@),
        kind_of(a@) != kind_of(b@) ==> o is None,
{
    if measure_of(a@) is Some && measure_of(a@) == measure_of(b@) {
        values_are_ordered_by_their_measure(a@, b@);
    }
}

/// The ordering operators accept the orders that their names say.
pub proof fn an_operator_accepts_its_orders(op: CmpOp, o: Order, r: bool, v: Value, takes: bool)
    requires
        call_ensures(op_accepts, (op, o), r),
        call_ensures(has_comparer, (&v,), takes),
    ensures
        r == match op {
            CmpOp::Less => o == Order::Less,
            CmpOp::LessEquals => o == Order::Less || o == Order::Equal,
            CmpOp::Greater => o == Order::Greater,
            CmpOp::GreaterEquals => o == Order::Greater || o == Order::Equal,
        },
        takes == (kind_of(v@) is Some),
{
}

/// What the result of an operator is, if it gives one.
pub open spec fn given(out: Outcome) -> Option<ResV> {
    match out@ {
        OutV::Done(r) => Some(r),
        OutV::Double(_, _, _) => None,
    }
}

/// The `int` that a number is, or the overflow that it is.
pub open spec fn as_int(name: Seq<char>, n: int, a: i64, b: i64) -> ResV {
    if fits_int(n) {
        Ok(Val::Int(n as i64))
    } else {
        Err(ErrV::Overflow(name, Val::Int(a), Val::Int(b)))
    }
}

/// The `uint` that a number is, or the overflow that it is.
pub open spec fn as_uint(name: Seq<char>, n: int, a: u64, b: u64) -> ResV {
    if fits_uint(n) {
        Ok(Val::UInt(n as u64))
    } else {
        Err(ErrV::Overflow(name, Val::UInt(a), Val::UInt(b)))
    }
}

/// The duration that a number of nanoseconds is, or the overflow that it is.
pub open spec fn as_duration(name: Seq<char>, n: int, a: int, b: int) -> ResV {
    if fits_duration(n) {
        Ok(Val::Duration(n))
    } else {
        Err(ErrV::Overflow(name, Val::Duration(a), Val::Duration(b)))
    }
}

/// Integers are added, subtracted and multiplied as numbers are.
pub proof fn integer_functions_compute(
    a: i64,
    b: i64,
    x: u64,
    y: u64,
    sum: ResolveResult,
    difference: ResolveResult,
    product: ResolveResult,
    usum: ResolveResult,
    udifference: ResolveResult,
    uproduct: ResolveResult,
)
    requires
        call_ensures(int_binop, (BinOp::Add, a, b), sum),
        call_ensures(int_binop, (BinOp::Sub, a, b), difference),
        call_ensures(int_binop, (BinOp::Mul, a, b), product),
        call_ensures(uint_binop, (BinOp::Add, x, y), usum),
        call_ensures(uint_binop, (BinOp::Sub, x, y), udifference),
        call_ensures(uint_binop, (BinOp::Mul, x, y), uproduct),
    ensures
        result_view(sum) == as_int("add"@, a + b, a, b),
        result_view(difference) == as_int("sub"@, a - b, a, b),
        result_view(product) == as_int("mul"@, a * b, a, b),
        result_view(usum) == as_uint("add"@, x + y, x, y),
        result_view(udifference) == as_uint("sub"@, x - y, x, y),
        result_view(uproduct) == as_uint("mul"@, x * y, x, y),
{
}

/// Integers are divided as the operators of expressions divide them: the quotient times
/// the divisor and the remainder make the dividend.
pub proof fn integer_functions_divide(
    a: i64,
    b: i64,
    x: u64,
    y: u64,
    q: ResolveResult,
    m: ResolveResult,
    uq: ResolveResult,
    um: ResolveResult,
)
    requires
        call_ensures(int_binop, (BinOp::Div, a, b), q),
        call_ensures(int_binop, (BinOp::Rem, a, b), m),
        call_ensures(uint_binop, (BinOp::Div, x, y), uq),
        call_ensures(uint_binop, (BinOp::Rem, x, y), um),
    ensures
        b == 0 ==> result_view(q) == Err::<Val, ErrV>(ErrV::DivisionByZero(Val::Int(a))),
        b == 0 ==> result_view(m) == Err::<Val, ErrV>(ErrV::RemainderByZero(Val::Int(a))),
        y == 0 ==> result_view(uq) == Err::<Val, ErrV>(ErrV::DivisionByZero(Val::UInt(x))),
        y == 0 ==> result_view(um) == Err::<Val, ErrV>(ErrV::RemainderByZero(Val::UInt(x))),
        a == i64::MIN && b == -1 ==> result_view(q) == Err::<Val, ErrV>(
            ErrV::Overflow("div"@, Val::Int(a), Val::Int(b)),
        ) && result_view(m) == Err::<Val, ErrV>(ErrV::Overflow("rem"@, Val::Int(a), Val::Int(b))),
        b != 0 && !(a == i64::MIN && b == -1) ==> {
            &&& result_view(q) matches Ok(Val::Int(k))
            &&& result_view(m) matches Ok(Val::Int(l))
            &&& is_quotient(a as int, b as int, k as int)
            &&& l == a - k * b
        },
        y != 0 ==> {
            &&& result_view(uq) matches Ok(Val::UInt(k))
            &&& result_view(um) matches Ok(Val::UInt(l))
            &&& x == k * y + l
            &&& l < y
        },
{
    if b != 0 {
        crate::laws::operators::lemma_quotient(a as int, b as int);
        let k = crate::model::quotient(a as int, b as int);
        if b == 1 {
            assert(k * b == k) by (nonlinear_arith)
                requires
                    b == 1,
            ;
        } else if b == -1 {
            assert(k * b == -k) by (nonlinear_arith)
                requires
                    b == -1,
            ;
        }
    }
    if y != 0 {
        let (v, w) = (x as int, y as int);
        let (k, l) = (v / w, v % w);
        assert(v == k * w + l && 0 <= l < w && 0 <= k <= v) by (nonlinear_arith)
            requires
                w > 0,
                v >= 0,
                k == v / w,
                l == v % w,
        ;
    }
}

/// Durations are added and subtracted by their nanoseconds; a timestamp outside leap
/// seconds is moved by them, and keeps its offset.
pub proof fn time_functions_compute(
    a: Duration,
    b: Duration,
    t: Timestamp,
    sum: ResolveResult,
    difference: ResolveResult,
    later: ResolveResult,
    earlier: ResolveResult,
)
    requires
        call_ensures(duration_binop, (BinOp::Add, a, b), sum),
        call_ensures(duration_binop, (BinOp::Sub, a, b), difference),
        call_ensures(timestamp_duration_binop, (BinOp::Add, t, a), later),
        call_ensures(timestamp_duration_binop, (BinOp::Sub, t, a), earlier),
    ensures
        result_view(sum) == as_duration("add"@, a@ + b@, a@, b@),
        result_view(difference) == as_duration("sub"@, a@ - b@, a@, b@),
        !t@.leap && result_view(later) is Ok ==> (result_view(later) matches Ok(Val::Timestamp(u))
            && u.nanos == t@.nanos + a@ && u.offset == t@.offset && !u.leap),
        !t@.leap && result_view(earlier) is Ok ==> (result_view(earlier) matches Ok(
            Val::Timestamp(u),
        ) && u.nanos == t@.nanos - a@ && u.offset == t@.offset && !u.leap),
        !t@.leap ==> (result_view(later) is Ok <==> crate::laws::operators::lies_in_the_years(
            t@.nanos + a@,
        )),
        !t@.leap ==> (result_view(earlier) is Ok <==> crate::laws::operators::lies_in_the_years(
            t@.nanos - a@,
        )),
        result_view(later) is Err ==> result_view(later) == Err::<Val, ErrV>(
            ErrV::Overflow("add"@, Val::Timestamp(t@), Val::Duration(a@)),
        ),
        result_view(earlier) is Err ==> result_view(earlier) == Err::<Val, ErrV>(
            ErrV::Overflow("sub"@, Val::Timestamp(t@), Val::Duration(a@)),
        ),
{
}

/// The operators of values, whichever function carries them out, agree: an expression's
/// answer is that of the values, and only what a refusal is called differs. Each method
/// is the operator of its name.
pub proof fn the_operators_agree(
    op: BinOp,
    a: Value,
    b: Value,
    owned: Outcome,
    borrowed: Outcome,
    method: Outcome,
)
    requires
        call_ensures(binary_values, (op, a, b), owned),
        call_ensures(binary_values_ref, (op, &a, &b), borrowed),
        match op {
            BinOp::Add => call_ensures(Value::add, (a, b), method),
            BinOp::Sub => call_ensures(Value::sub, (a, b), method),
            BinOp::Mul => call_ensures(Value::mul, (a, b), method),
            BinOp::Div => call_ensures(Value::div, (a, b), method),
            BinOp::Rem => call_ensures(Value::rem, (a, b), method),
        },
    ensures
        owned@ == borrowed@,
        owned@ == binary(op, a@, b@),
        given(method) is None || given(method)->0 is Ok ==> method@ == owned@,
        given(method) is Some && given(method)->0 is Err ==> given(owned) is Some && given(owned)->0
            is Err,
        is_public(a) && is_public(b) && !computes(op, a@, b@) ==> given(method) == Some(
            Err::<Val, ErrV>(
                ErrV::UnsupportedBinaryOperator(
                    match op {
                        BinOp::Add => "add"@,
                        BinOp::Sub => "sub"@,
                        BinOp::Mul => "mul"@,
                        BinOp::Div => "div"@,
                        BinOp::Rem => "rem"@,
                    },
                    a@,
                    b@,
                ),
            ),
        ),
{
    crate::laws::arithmetic::expressions_and_values_compute_alike(op, a@, b@);
}

/// What the operators give on the values that they are made for.
pub proof fn the_operators_compute(op: BinOp, a: Value, b: Value, out: Outcome)
    requires
        call_ensures(binary_values, (op, a, b), out),
    ensures
        match (a@, b@) {
            (Val::Int(x), Val::Int(y)) => {
                &&& op == BinOp::Add ==> given(out) == Some(as_int("add"@, x + y, x, y))
                &&& op == BinOp::Sub ==> given(out) == Some(as_int("sub"@, x - y, x, y))
                &&& op == BinOp::Mul ==> given(out) == Some(as_int("mul"@, x * y, x, y))
            },
            (Val::UInt(x), Val::UInt(y)) => {
                &&& op == BinOp::Add ==> given(out) == Some(as_uint("add"@, x + y, x, y))
                &&& op == BinOp::Sub ==> given(out) == Some(as_uint("sub"@, x - y, x, y))
                &&& op == BinOp::Mul ==> given(out) == Some(as_uint("mul"@, x * y, x, y))
            },
            (Val::Duration(x), Val::Duration(y)) => {
                &&& op == BinOp::Add ==> given(out) == Some(as_duration("add"@, x + y, x, y))
                &&& op == BinOp::Sub ==> given(out) == Some(as_duration("sub"@, x - y, x, y))
            },
            (Val::Double(x), Val::Double(y)) => op != BinOp::Rem ==> out == Outcome::Double(
                op,
                x,
                y,
            ),
            (Val::List(x), Val::List(y)) => op == BinOp::Add ==> given(out) == Some(
                Ok::<Val, ErrV>(Val::List(x + y)),
            ),
            (Val::Str(x), Val::Str(y)) => op == BinOp::Add ==> given(out) == Some(
                Ok::<Val, ErrV>(Val::Str(x + y)),
            ),
            (Val::Bytes(x), Val::Bytes(y)) => op == BinOp::Add ==> given(out) == Some(
                Ok::<Val, ErrV>(Val::Bytes(x + y)),
            ),
            (Val::Timestamp(t), Val::Timestamp(u)) => op == BinOp::Sub && !t.leap && !u.leap ==> given(
                out,
            ) == Some(Ok::<Val, ErrV>(Val::Duration(t.nanos - u.nanos))),
            _ => true,
        },
        !computes(op, a@, b@) ==> given(out) is Some && given(out)->0 is Err,
{
    if !computes(op, a@, b@) {
        the_arithmetic_operators_refuse(op, a@, b@);
    }
}

/// The numeric operators take the pairs that are numbers, durations or timestamps, and
/// leave the others; on two doubles they hand out the operation.
pub proof fn the_numeric_operators_take_numbers(
    op: BinOp,
    a: Value,
    b: Value,
    some: Option<Outcome>,
    x: u64,
    y: u64,
    float: Outcome,
)
    requires
        call_ensures(numeric_binop, (op, &a, &b), some),
        call_ensures(float_binop, (op, x, y), float),
    ensures
        some matches Some(out) ==> out@ == binary(op, a@, b@),
        some is None ==> !computes(op, a@, b@) || a@ is List || a@ is Str || a@ is Bytes,
        a@ is Int && b@ is Int || a@ is UInt && b@ is UInt || a@ is Double && b@ is Double ==> some
            is Some,
        op != BinOp::Rem ==> float == Outcome::Double(op, x, y),
        op == BinOp::Rem ==> given(float) == Some(
            Err::<Val, ErrV>(
                ErrV::UnsupportedBinaryOperator("rem"@, Val::Double(x), Val::Double(y)),
            ),
        ),
{
}

/// Unary minus gives the opposite.
pub proof fn the_negation_function_gives_the_opposite(v: Value, r: ResolveResult)
    requires
        call_ensures(value_negate, (v,), r),
    ensures
        match v@ {
            Val::Int(i) => if i == i64::MIN {
                result_view(r) == Err::<Val, ErrV>(ErrV::Overflow("negate"@, v@, Val::Int(0)))
            } else {
                result_view(r) matches Ok(Val::Int(j)) && i + j == 0
            },
            Val::Double(d) => result_view(r) matches Ok(Val::Double(x)) && size(x - d)
                == 0x8000_0000_0000_0000,
            Val::Bool(b) => result_view(r) == Ok::<Val, ErrV>(Val::Bool(!b)),
            Val::Duration(d) => result_view(r) == Ok::<Val, ErrV>(Val::Duration(-d)),
            _ => result_view(r) == Err::<Val, ErrV>(ErrV::NoSuchOverload),
        },
{
}

/// Indexing, selecting a field and testing for one go by what a value in public form
/// stands for.
pub proof fn containers_are_read(
    c: Value,
    k: Value,
    name: &str,
    indexed: ResolveResult,
    selected: ResolveResult,
    tested: ResolveResult,
)
    requires
        call_ensures(value_index, (&c, &k), indexed),
        call_ensures(value_field, (&c, name), selected),
        call_ensures(value_has_field, (&c, name), tested),
        is_public(c),
    ensures
        result_view(indexed) == index(c@, k@),
        result_view(selected) == index(c@, Val::Str(name@)),
        c@ is CelMap || c@ is Struct ==> result_view(tested) == Ok::<Val, ErrV>(
            Val::Bool(index(c@, Val::Str(name@)) is Ok),
        ),
        !(c@ is CelMap) && !(c@ is Struct) ==> result_view(tested) == index(c@, Val::Str(name@)),
{
    reveal(held_index);
}

/// A container in public form holds what `in` says it holds.
pub proof fn containers_are_searched(
    c: Value,
    k: Value,
    found: Result<bool, ExecutionError>,
)
    requires
        call_ensures(value_contains, (&c, &k), found),
        is_public(c),
    ensures
        match c@ {
            Val::List(items) => found is Ok && (found->Ok_0 <==> exists|i: int|
                0 <= i < items.len() && val_eq(#[trigger] items[i], k@)),
            Val::CelMap(m) => if k@ is Int || k@ is UInt || k@ is Bool || k@ is Str {
                found is Ok && (found->Ok_0 <==> has_key(m, k@))
            } else {
                found matches Err(e) && e@ == ErrV::UnsupportedKeyType(k@)
            },
            _ => found matches Err(e) && e@ == ErrV::NoSuchOverload,
        },
{
    match c@ {
        Val::CelMap(m) => {
            lemma_position(m, k@);
            let p = position(m, k@);
            if p >= 0 {
                assert(m[p].0 == k@);
            }
        },
        _ => {},
    }
}

/// A list in public form is gone over by its elements and a map by its keys, all of them
/// and in order; nothing else is gone over.
pub proof fn containers_are_gone_over(c: Value, items: Result<Vec<Value>, ExecutionError>)
    requires
        call_ensures(value_iter, (&c,), items),
        is_public(c),
    ensures
        match c@ {
            Val::List(s) => items is Ok && items->Ok_0@.len() == s.len() && forall|i: int|
                0 <= i < s.len() ==> (#[trigger] items->Ok_0@[i])@ == s[i],
            Val::CelMap(m) => items is Ok && items->Ok_0@.len() == m.len() && forall|i: int|
                0 <= i < m.len() ==> (#[trigger] items->Ok_0@[i])@ == m[i].0,
            _ => items matches Err(e) && e@ == ErrV::NoSuchOverload,
        },
{
    if items is Ok {
        let vs = items->Ok_0@;
        let held = held_items(c@, None)->Ok_0;
        assert(held_items(c@, None) is Ok);
        assert(held == held_views(vs));
        assert forall|i: int| 0 <= i < vs.len() implies held_view(#[trigger] vs[i]) == held[i] by {
            assert(held_views(vs)[i] == held_view(vs[i]));
        }
        match c@ {
            Val::List(s) => {
                assert forall|i: int| 0 <= i < s.len() implies (#[trigger] vs[i])@ == s[i] by {
                    assert(held[i] == in_public(s[i]));
                }
            },
            Val::CelMap(m) => {
                let keys = iterated(c@)->Ok_0;
                assert forall|i: int| 0 <= i < m.len() implies (#[trigger] vs[i])@ == m[i].0 by {
                    assert(keys[i] == m[i].0);
                    assert(held[i] == in_public(keys[i]));
                }
            },
            _ => {},
        }
    }
}

/// A list is as long as it has elements, a map as it has entries, a byte string as it has
/// bytes, and a string as its UTF-8 has. Nothing else has a length.
pub proof fn containers_are_measured(c: Value, n: Option<i64>)
    requires
        call_ensures(value_len, (&c,), n),
    ensures
        match c@ {
            Val::List(s) => s.len() <= i64::MAX ==> n == Some(s.len() as i64),
            Val::CelMap(m) => m.len() <= i64::MAX ==> n == Some(m.len() as i64),
            Val::Str(t) => encode_utf8(t).len() <= i64::MAX ==> n == Some(
                encode_utf8(t).len() as i64,
            ),
            Val::Bytes(b) => b.len() <= i64::MAX ==> n == Some(b.len() as i64),
            _ => n is None,
        },
{
}

/// A value is a key where it is an integer, a boolean or a string, and is the same value
/// as a key; a boolean is the boolean that it is.
pub proof fn keys_and_booleans_are_taken_out_of_values(
    v: Value,
    k: Result<Key, ExecutionError>,
    b: Option<bool>,
)
    requires
        call_ensures(value_key, (v,), k),
        call_ensures(as_bool, (&v,), b),
    ensures
        k is Ok <==> v@ is Int || v@ is UInt || v@ is Bool || v@ is Str,
        k matches Ok(key) ==> key@ == v@,
        k matches Err(e) ==> e@ == ErrV::UnsupportedKeyType(v@),
        b == match v@ {
            Val::Bool(x) => Some(x),
            _ => None,
        },
{
}

/// An optional holds what it was made of, and the empty one holds nothing.
pub proof fn optionals_hold_what_they_are_made_of(
    v: Value,
    o: Value,
    e: Value,
    inside: OptView,
    nothing: OptView,
    plain: OptView,
)
    requires
        call_ensures(optional_of, (v,), o),
        call_ensures(optional_none, (), e),
        call_ensures(optional_view, (&o,), inside),
        call_ensures(optional_view, (&e,), nothing),
        call_ensures(optional_view, (&v,), plain),
    ensures
        inside matches OptView::Present(x) && x@ == v@,
        nothing is Empty,
        !(v@ is Optional) <==> plain is Plain,
        o@ == Val::Optional(Some(Box::new(v@))),
        e@ == Val::Optional(None),
{
}

/// What two lists make together has as many elements as both, and indexing it finds those
/// of the first and then those of the second.
pub proof fn lists_are_put_together(
    a: ListRef,
    b: ListRef,
    c: ListRef,
    i: usize,
    x: Option<Value>,
    y: Option<Value>,
    n: usize,
)
    requires
        call_ensures(ListRef::concat, (a, &b), c),
        call_ensures(ListRef::get, (&c, i), x),
        call_ensures(ListRef::len, (&c,), n),
        if i < a@.len() {
            call_ensures(ListRef::get, (&a, i), y)
        } else {
            call_ensures(ListRef::get, (&b, (i - a@.len()) as usize), y)
        },
    ensures
        n == a@.len() + b@.len(),
        match (x, y) {
            (Some(v), Some(w)) => v@ == w@,
            (None, None) => true,
            _ => false,
        },
        x is Some <==> i < n,
{
    if i >= a@.len() && i < a@.len() + b@.len() {
        assert((a@ + b@)[i as int] == b@[i - a@.len()]);
    }
}

/// A part of a list has the elements of the list from its start on.
pub proof fn parts_of_lists_have_their_elements(
    a: ListRef,
    start: usize,
    len: usize,
    part: ListRef,
    i: usize,
    x: Option<Value>,
    y: Option<Value>,
    v: Value,
    has: bool,
)
    requires
        start + len <= a@.len(),
        start + i <= usize::MAX,
        call_ensures(ListRef::slice, (&a, start, len), part),
        call_ensures(ListRef::get, (&part, i), x),
        call_ensures(ListRef::get, (&a, (start + i) as usize), y),
        call_ensures(ListRef::contains, (&a, &v), has),
    ensures
        part@.len() == len,
        x is Some <==> i < len,
        i < len ==> y is Some && x->0@ == y->0@,
        has <==> exists|j: int| 0 <= j < a@.len() && val_eq(#[trigger] a@[j], v@),
{
}

/// What is stored under a key is found there, whatever else is stored under other keys.
pub proof fn a_map_finds_what_it_holds(
    m: CelMap,
    i: usize,
    key: Key,
    value: Value,
    found: Option<Value>,
    there: bool,
    n: usize,
)
    requires
        crate::model::distinct_keys(m@),
        call_ensures(CelMap::entry, (&m, i), Some((key, value))),
        call_ensures(CelMap::len, (&m,), n),
        call_ensures(CelMap::get::<Key>, (&m, &key), found),
        call_ensures(CelMap::contains_key::<Key>, (&m, &key), there),
    ensures
        i < n,
        there,
        found matches Some(v) && v@ == value@,
{
    lemma_position(m@, key@);
    assert(m@[i as int].0 == key@);
    assert(position(m@, key@) == i);
}

/// A program is evaluated with its variables in sight and no replies taken: what comes of
/// it is what the expression evaluates to.
pub proof fn a_program_is_evaluated(
    e: Expression,
    ctx: Context,
    replies: Vec<Reply>,
    r: Eval,
)
    requires
        call_ensures(Value::resolve, (&e, &ctx, &replies), r),
    ensures
        exists|s: crate::context::ScopeV| #[trigger]
            eval(e, s, crate::resolve::replies_view(replies@), 0).0 == r@ && s.globals
                == ctx.variables@ && s.leaves == ctx.variables.leaves() && s.locals.dom() =~= Set::<
                Seq<char>,
            >::empty(),
        crate::resolve::replies_view(replies@).len() == replies@.len(),
        forall|i: int|
            0 <= i < replies@.len() ==> #[trigger] crate::resolve::replies_view(replies@)[i]
                == match replies@[i] {
                Reply::Declined => ReplyV::Declined,
                Reply::Value(v) => ReplyV::Value(v@),
                Reply::Failed(x) => ReplyV::Failed(x@),
            },
{
    let s = crate::context::root_scope(ctx);
    assert(eval(e, s, crate::resolve::replies_view(replies@), 0).0 == r@);
}

/// The kind of a value is named by its type in messages.
pub proof fn kinds_have_their_names(v: Value, t: ValueType, name: &'static str)
    requires
        call_ensures(Value::type_of, (&v,), t),
        call_ensures(ValueType::name, (t,), name),
    ensures
        match v@ {
            Val::Int(_) => name@ == "int"@,
            Val::UInt(_) => name@ == "uint"@,
            Val::Double(_) => name@ == "float"@,
            Val::Str(_) => name@ == "string"@,
            Val::Bytes(_) => name@ == "bytes"@,
            Val::Bool(_) => name@ == "bool"@,
            Val::Null => name@ == "null"@,
            Val::List(_) => name@ == "list"@,
            Val::CelMap(_) => name@ == "map"@,
            Val::Duration(_) => name@ == "duration"@,
            Val::Timestamp(_) => name@ == "timestamp"@,
            Val::Struct(_, _) => name@ == "struct"@,
            Val::Optional(_) | Val::Type(_) | Val::Host(_, _) => name@ == "opaque"@,
            Val::Invalid(_) => true,
        },
{
}

/// A value is zero where it is the empty one, or the number zero, of its type.
pub proof fn zero_is_nothing_of_its_type(v: Value, r: bool)
    requires
        call_ensures(Value::is_zero, (&v,), r),
    ensures
        match v@ {
            Val::List(_) | Val::CelMap(_) | Val::Bytes(_) => r == (val_len(v@) == Some(0int)),
            Val::Str(t) => r == (t.len() == 0),
            Val::Int(_) | Val::UInt(_) | Val::Duration(_) => r == (amount(v@) == 0),
            Val::Bool(b) => r == !b,
            Val::Double(d) => r == (d == 0 || d == 0x8000_0000_0000_0000),
            Val::Null => r,
            _ => !r,
        },
{
}

/// Null stands at one place with itself, and leap seconds stand in the order of their
/// nanoseconds.
pub proof fn the_other_values_have_their_order(a: Value, b: Value, o: Option<Order>)
    requires
        call_ensures(value_order, (&a, &b), o),
    ensures
        a@ is Null && b@ is Null ==> o == Some(Order::Equal),
        a@ is Null != b@ is Null ==> o is None,
        match (a@, b@) {
            (Val::Timestamp(t), Val::Timestamp(u)) => t.leap && u.leap ==> {
                &&& o == Some(Order::Less) <==> t.nanos < u.nanos
                &&& o == Some(Order::Equal) <==> t.nanos == u.nanos
                &&& o == Some(Order::Greater) <==> t.nanos > u.nanos
            },
            _ => true,
        },
{
}

/// A function name is an operator's where an operator has that name, and a literal is read
/// as its value.
pub proof fn names_and_literals_are_read(
    name: &str,
    op: Operator,
    l: LiteralValue,
    v: Value,
    e: Expression,
    is: bool,
)
    requires
        call_ensures(operator_of, (name,), op),
        call_ensures(LiteralValue::to_value, (&l,), v),
        call_ensures(is_variable, (&e, name), is),
    ensures
        op == Operator::Function <==> !names_an_operator(name@),
        name@ == "_<=_"@ ==> op == Operator::Ordered(CmpOp::LessEquals),
        name@ == "_>=_"@ ==> op == Operator::Ordered(CmpOp::GreaterEquals),
        name@ == "_<_"@ ==> op == Operator::Ordered(CmpOp::Less),
        name@ == "_>_"@ ==> op == Operator::Ordered(CmpOp::Greater),
        v@ == match l {
            LiteralValue::Boolean(b) => Val::Bool(b),
            LiteralValue::Int(i) => Val::Int(i),
            LiteralValue::UInt(u) => Val::UInt(u),
            LiteralValue::Double(d) => Val::Double(d),
            LiteralValue::String(t) => Val::Str(t@),
            LiteralValue::Bytes(b) => Val::Bytes(b@),
            LiteralValue::Null => Val::Null,
        },
        is <==> (e.expr matches Expr::Ident(x) && x@ == name@),
{
    every_operator_has_its_name(name@);
}

/// Expressions are evaluated in turn to the list of their values, and evaluating on a heap
/// gives what evaluating gives, in public form.
pub proof fn programs_are_evaluated_alike(
    es: Vec<Expression>,
    e: Expression,
    ctx: Context,
    replies: Vec<Reply>,
    vs: Seq<Val>,
    marks: Seq<nat>,
    all: Eval,
    one: Eval,
    heap: &mut CelHeap,
    kept: Eval,
)
    requires
        call_ensures(Value::resolve_all, (&es, &ctx, &replies), all),
        call_ensures(Value::resolve, (&e, &ctx, &replies), one),
        call_ensures(Value::resolve_value, (heap, &e, &ctx, &replies), kept),
        in_turn(es@, vs, marks, root_scope(ctx), replies_view(replies@)),
        marks[0] == 0,
    ensures
        all@ == EvalV::Done(Val::List(vs)),
        one@ == kept@,
        kept matches Eval::Done(v) ==> is_public(v),
        final(heap).eval_depth_of() == old(heap).eval_depth_of(),
{
    assert(es@.take(es@.len() as int) =~= es@);
    lemma_args(es@, vs, marks, es@.len(), root_scope(ctx), replies_view(replies@));
}

/// An optional is lent out of a value that is one in public form; any other is reported by
/// its type.
pub proof fn optionals_are_expected(
    v: Value,
    r: Result<&OptionalValue, ExecutionError>,
    o: Option<&OptionalValue>,
    x: Option<&Value>,
)
    requires
        call_ensures(expect_optional, (&v,), r),
        call_ensures(as_optional, (&v,), o),
        r is Ok ==> call_ensures(OptionalValue::value, (r->Ok_0,), x),
    ensures
        r is Ok <==> is_public(v) && v@ is Optional,
        o is Some <==> r is Ok,
        r is Ok ==> match x {
            Some(y) => v@ == Val::Optional(Some(Box::new(y@))),
            None => v@ == Val::Optional(None),
        },
        r matches Err(e) ==> match e@ {
            ErrV::UnexpectedType(_, want) => want == "optional_type"@,
            ErrV::FunctionError(f, m) => f == "optional"@ && m == "failed to downcast"@,
            _ => false,
        },
{
}

/// A type is named by its name, and two types are the same where they are one.
pub proof fn types_are_named_and_compared(
    a: TypeValue,
    b: TypeValue,
    same: bool,
    v: Value,
    expected: ValueType,
    e: ExecutionError,
)
    requires
        call_ensures(TypeValue::same, (&a, &b), same),
        call_ensures(Value::error_expected_type, (&v, expected), e),
    ensures
        same == (a@ == b@),
        v@ is Int && expected == ValueType::String ==> e@ == ErrV::UnexpectedType(
            "int"@,
            "string"@,
        ),
        e@ matches ErrV::UnexpectedType(_, _),
{
}

/// The family of a value's class.
pub proof fn values_have_their_kind(v: Value, k: CelKind)
    requires
        call_ensures(Value::kind, (&v,), k),
    ensures
        match v {
            Value::Null => k == CelKind::Null,
            Value::Bool(_) => k == CelKind::Bool,
            Value::Int(_) => k == CelKind::Int,
            Value::UInt(_) => k == CelKind::UInt,
            Value::Float(_) => k == CelKind::Double,
            Value::String(_) => k == CelKind::Str,
            Value::Bytes(_) => k == CelKind::Bytes,
            Value::Duration(_) => k == CelKind::Duration,
            Value::Timestamp(_) => k == CelKind::Timestamp,
            Value::List(_) => k == CelKind::List,
            Value::CelMap(_) => k == CelKind::CelMap,
            Value::Struct(_) => k == CelKind::Struct,
            Value::Opaque(_) => k == if v@ is Optional {
                CelKind::Optional
            } else if v@ matches Val::Type(TypeV::Core(_)) {
                CelKind::Type
            } else {
                CelKind::Opaque
            },
            Value::Interned(_) => true,
        },
{
}

/// The error of an operator on leaves becomes the error that the operator gives on values.
pub proof fn raised_errors_become_errors(
    code: CelErrCode,
    op: &'static str,
    l: Value,
    r: Value,
    e: ExecutionError,
)
    requires
        call_ensures(raised_to_execution, (code, op, l, r), e),
    ensures
        e@ == match code {
            CelErrCode::Overflow => ErrV::Overflow(op@, l@, r@),
            CelErrCode::DivisionByZero => ErrV::DivisionByZero(l@),
            CelErrCode::RemainderByZero => ErrV::RemainderByZero(l@),
            CelErrCode::UnsupportedBinaryOperator => if l@ is Int || l@ is List && op@ == "add"@
                || l@ is Duration && op@ == "sub"@ {
                ErrV::NoSuchOverload
            } else {
                ErrV::UnsupportedBinaryOperator(op@, l@, r@)
            },
            CelErrCode::NoSuchOverload => ErrV::NoSuchOverload,
            CelErrCode::NoneDereference => ErrV::FunctionError(
                op@,
                "optional.none() dereference"@,
            ),
        },
{
}

/// Two errors say the same only where they are of one sort; where they hold values, these
/// are equal, and where they hold names, these are the same.
pub proof fn errors_say_the_same(a: ErrV, b: ErrV)
    ensures
        err_eq(a, b) == err_eq(b, a),
        match (a, b) {
            (ErrV::NoSuchOverload, ErrV::NoSuchOverload) => err_eq(a, b),
            (ErrV::NoSuchKey(x), ErrV::NoSuchKey(y)) => err_eq(a, b) == (x == y),
            (ErrV::UndeclaredReference(x), ErrV::UndeclaredReference(y)) => err_eq(a, b) == (x
                == y),
            (ErrV::DivisionByZero(x), ErrV::DivisionByZero(y)) => err_eq(a, b) == val_eq(x, y),
            (ErrV::RemainderByZero(x), ErrV::RemainderByZero(y)) => err_eq(a, b) == val_eq(x, y),
            (ErrV::IndexOutOfBounds(x), ErrV::IndexOutOfBounds(y)) => err_eq(a, b) == val_eq(x, y),
            (ErrV::UnsupportedKeyType(x), ErrV::UnsupportedKeyType(y)) => err_eq(a, b) == val_eq(
                x,
                y,
            ),
            (ErrV::Overflow(o, x, y), ErrV::Overflow(p, z, w)) => err_eq(a, b) == (o == p && val_eq(
                x,
                z,
            ) && val_eq(y, w)),
            (
                ErrV::UnsupportedBinaryOperator(o, x, y),
                ErrV::UnsupportedBinaryOperator(p, z, w),
            ) => err_eq(a, b) == (o == p && val_eq(x, z) && val_eq(y, w)),
            (ErrV::UnexpectedType(x, y), ErrV::UnexpectedType(z, w)) => err_eq(a, b) == (x == z && y
                == w),
            (ErrV::FunctionError(x, y), ErrV::FunctionError(z, w)) => err_eq(a, b) == (x == z && y
                == w),
            (ErrV::InternalError(x), ErrV::InternalError(y)) => err_eq(a, b) == (x == y),
            (ErrV::UnsupportedIndex(x, y), ErrV::UnsupportedIndex(z, w)) => err_eq(a, b) == (val_eq(
                x,
                z,
            ) && val_eq(y, w)),
            _ => !err_eq(a, b),
        },
{
    match (a, b) {
        (ErrV::DivisionByZero(x), ErrV::DivisionByZero(y)) => equality_is_symmetric(x, y),
        (ErrV::RemainderByZero(x), ErrV::RemainderByZero(y)) => equality_is_symmetric(x, y),
        (ErrV::IndexOutOfBounds(x), ErrV::IndexOutOfBounds(y)) => equality_is_symmetric(x, y),
        (ErrV::UnsupportedKeyType(x), ErrV::UnsupportedKeyType(y)) => equality_is_symmetric(x, y),
        (ErrV::Overflow(_, x, y), ErrV::Overflow(_, z, w)) => {
            equality_is_symmetric(x, z);
            equality_is_symmetric(y, w);
        },
        (
            ErrV::UnsupportedBinaryOperator(_, x, y),
            ErrV::UnsupportedBinaryOperator(_, z, w),
        ) => {
            equality_is_symmetric(x, z);
            equality_is_symmetric(y, w);
        },
        (ErrV::UnsupportedIndex(x, y), ErrV::UnsupportedIndex(z, w)) => {
            equality_is_symmetric(x, z);
            equality_is_symmetric(y, w);
        },
        _ => {},
    }
}

/// A duration that moves a timestamp out of its limits overflows. Added as values in public
/// form the operands are told in their order; added as an expression adds, the timestamp is
/// told first.
pub proof fn an_overflow_tells_its_operands(
    d: Duration,
    t: Timestamp,
    method: Outcome,
    operator: Outcome,
)
    requires
        call_ensures(Value::add, (Value::Duration(d), Value::Timestamp(t)), method),
        call_ensures(
            binary_values,
            (BinOp::Add, Value::Duration(d), Value::Timestamp(t)),
            operator,
        ),
        !t@.leap,
        !crate::laws::operators::lies_in_the_years(t@.nanos + d@),
    ensures
        method@ == OutV::Done(
            Err(ErrV::Overflow("add"@, Val::Duration(d@), Val::Timestamp(t@))),
        ),
        operator@ == OutV::Done(
            Err(ErrV::Overflow("add"@, Val::Timestamp(t@), Val::Duration(d@))),
        ),
{
}

/// A key that a map does not have is told as it is written.
pub proof fn a_missing_key_is_told_as_it_is_written(
    m: Seq<(Val, Val)>,
    k: Key,
    text: String,
    container: Value,
    key: Value,
    r: ResolveResult,
)
    requires
        call_ensures(crate::access::key_display, (&k,), text),
        forall|i: int|
            0 <= i < m.len() ==> (#[trigger] m[i]).0 != k@
                && !crate::laws::members::are_one_number(m[i].0, k@),
        is_public(container),
        container@ == Val::CelMap(m),
        key@ == k@,
        call_ensures(value_index, (&container, &key), r),
    ensures
        r matches Err(e) && e@ == ErrV::NoSuchKey(text@),
{
    reveal(held_index);
    lemma_position(m, k@);
    match k@ {
        Val::Int(x) => {
            if x >= 0 {
                lemma_position(m, Val::UInt(x as u64));
            }
        },
        Val::UInt(x) => {
            if x <= i64::MAX {
                lemma_position(m, Val::Int(x as i64));
            }
        },
        _ => {},
    }
}

} // verus!
