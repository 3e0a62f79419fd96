//! Parsed expressions.

use crate::model::{BinOp, CmpOp, Val};
use crate::text::str_eq;
use crate::value::Value;
use std::sync::Arc;
use vstd::prelude::*;

verus! {

/// A literal.
#[derive(Debug)]
pub enum LiteralValue {
    Boolean(bool),
    Int(i64),
    UInt(u64),
    /// The bits of a double.
    Double(u64),
    String(Arc<String>),
    Bytes(Arc<Vec<u8>>),
    Null,
}

/// What a literal is.
pub open spec fn literal_val(l: LiteralValue) -> Val {
    match l {
        LiteralValue::Boolean(b) => Val::Bool(b),
        LiteralValue::Int(i) => Val::Int(i),
        LiteralValue::UInt(u) => Val::UInt(u),
        LiteralValue::Double(d) => Val::Double(d),
        LiteralValue::String(s) => Val::Str(s@),
        LiteralValue::Bytes(b) => Val::Bytes(b@),
        LiteralValue::Null => Val::Null,
    }
}

impl LiteralValue {
    /// The literal as a value.
    pub fn to_value(&self) -> (r: Value)
        ensures
            r@ == literal_val(*self),
    {
        match self {
            LiteralValue::Boolean(b) => Value::Bool(*b),
            LiteralValue::Int(i) => Value::Int(*i),
            LiteralValue::UInt(u) => Value::UInt(*u),
            LiteralValue::Double(d) => Value::Float(*d),
            LiteralValue::String(s) => Value::String(s.clone()),
            LiteralValue::Bytes(b) => Value::Bytes(b.clone()),
            LiteralValue::Null => Value::Null,
        }
    }
}

/// A call of a function, a method or an operator.
#[derive(Debug)]
pub struct CallExpr {
    pub func_name: String,
    pub target: Option<Box<Expression>>,
    pub args: Vec<Expression>,
}

/// A comprehension: the expansion of `all`, `exists`, `map` and `filter`.
#[derive(Debug)]
pub struct ComprehensionExpr {
    pub iter_range: Expression,
    pub iter_var: String,
    pub accu_var: String,
    pub accu_init: Expression,
    pub loop_cond: Expression,
    pub loop_step: Expression,
    pub result: Expression,
}

/// A list literal. The elements at `optional_indices` are optionals that stand for
/// what they hold, or for nothing.
#[derive(Debug)]
pub struct ListExpr {
    pub elements: Vec<Expression>,
    pub optional_indices: Vec<usize>,
}

/// An entry of a map literal or a field of a struct literal.
#[derive(Debug)]
pub enum EntryExpr {
    StructField { field: String, value: Expression, optional: bool },
    MapEntry { key: Expression, value: Expression, optional: bool },
}

/// A map literal.
#[derive(Debug)]
pub struct MapExpr {
    pub entries: Vec<EntryExpr>,
}

/// A field selection, or the test for a field.
#[derive(Debug)]
pub struct SelectExpr {
    pub operand: Box<Expression>,
    pub field: String,
    pub test: bool,
}

/// A struct literal.
#[derive(Debug)]
pub struct StructExpr {
    pub type_label: String,
    pub entries: Vec<EntryExpr>,
}

/// What an expression is.
#[derive(Debug)]
pub enum Expr {
    Unspecified,
    Call(CallExpr),
    Comprehension(Box<ComprehensionExpr>),
    Ident(String),
    List(ListExpr),
    Literal(LiteralValue),
    CelMap(MapExpr),
    Select(SelectExpr),
    Struct(StructExpr),
}

/// A parsed expression.
#[derive(Debug)]
pub struct Expression {
    pub id: u64,
    pub expr: Expr,
}

/// What a function name means as an operator.
#[derive(Clone, Copy, Debug, PartialEq, Eq, Structural)]
pub enum Operator {
    Conditional,
    LogicalOr,
    LogicalAnd,
    LogicalNot,
    Equals,
    NotEquals,
    Index,
    OptIndex,
    OptSelect,
    In,
    Negate,
    NotStrictlyFalse,
    Arith(BinOp),
    Ordered(CmpOp),
    /// It is an ordinary function.
    Function,
}

/// The operator that a function name is.
pub open spec fn operator(name: Seq<char>) -> Operator {
    if name == "_?_:_"@ {
        Operator::Conditional
    } else if name == "_||_"@ {
        Operator::LogicalOr
    } else if name == "_&&_"@ {
        Operator::LogicalAnd
    } else if name == "!_"@ {
        Operator::LogicalNot
    } else if name == "_==_"@ {
        Operator::Equals
    } else if name == "_!=_"@ {
        Operator::NotEquals
    } else if name == "_[_]"@ {
        Operator::Index
    } else if name == "_[?_]"@ {
        Operator::OptIndex
    } else if name == "_?._"@ {
        Operator::OptSelect
    } else if name == "@in"@ {
        Operator::In
    } else if name == "-_"@ {
        Operator::Negate
    } else if name == "@not_strictly_false"@ {
        Operator::NotStrictlyFalse
    } else if name == "_+_"@ {
        Operator::Arith(BinOp::Add)
    } else if name == "_-_"@ {
        Operator::Arith(BinOp::Sub)
    } else if name == "_*_"@ {
        Operator::Arith(BinOp::Mul)
    } else if name == "_/_"@ {
        Operator::Arith(BinOp::Div)
    } else if name == "_%_"@ {
        Operator::Arith(BinOp::Rem)
    } else if name == "_<_"@ {
        Operator::Ordered(CmpOp::Less)
    } else if name == "_<=_"@ {
        Operator::Ordered(CmpOp::LessEquals)
    } else if name == "_>_"@ {
        Operator::Ordered(CmpOp::Greater)
    } else if name == "_>=_"@ {
        Operator::Ordered(CmpOp::GreaterEquals)
    } else {
        Operator::Function
    }
}

/// The operator that a function name is.
pub fn operator_of(name: &str) -> (r: Operator)
    ensures
        r == operator(name@),
{
    if str_eq(name, "_?_:_") {
        Operator::Conditional
    } else if str_eq(name, "_||_") {
        Operator::LogicalOr
    } else if str_eq(name, "_&&_") {
        Operator::LogicalAnd
    } else if str_eq(name, "!_") {
        Operator::LogicalNot
    } else if str_eq(name, "_==_") {
        Operator::Equals
    } else if str_eq(name, "_!=_") {
        Operator::NotEquals
    } else if str_eq(name, "_[_]") {
        Operator::Index
    } else if str_eq(name, "_[?_]") {
        Operator::OptIndex
    } else if str_eq(name, "_?._") {
        Operator::OptSelect
    } else if str_eq(name, "@in") {
        Operator::In
    } else if str_eq(name, "-_") {
        Operator::Negate
    } else if str_eq(name, "@not_strictly_false") {
        Operator::NotStrictlyFalse
    } else if str_eq(name, "_+_") {
        Operator::Arith(BinOp::Add)
    } else if str_eq(name, "_-_") {
        Operator::Arith(BinOp::Sub)
    } else if str_eq(name, "_*_") {
        Operator::Arith(BinOp::Mul)
    } else if str_eq(name, "_/_") {
        Operator::Arith(BinOp::Div)
    } else if str_eq(name, "_%_") {
        Operator::Arith(BinOp::Rem)
    } else if str_eq(name, "_<_") {
        Operator::Ordered(CmpOp::Less)
    } else if str_eq(name, "_<=_") {
        Operator::Ordered(CmpOp::LessEquals)
    } else if str_eq(name, "_>_") {
        Operator::Ordered(CmpOp::Greater)
    } else if str_eq(name, "_>=_") {
        Operator::Ordered(CmpOp::GreaterEquals)
    } else {
        Operator::Function
    }
}

/// Whether an expression is the variable `name`.
pub open spec fn is_ident(e: Expression, name: Seq<char>) -> bool {
    e.expr matches Expr::Ident(n) && n@ == name
}

/// Whether `e` is the variable `name`.
pub fn is_variable(e: &Expression, name: &str) -> (r: bool)
    ensures
        r == is_ident(*e, name@),
{
    match &e.expr {
        Expr::Ident(n) => str_eq(n.as_str(), name),
        _ => false,
    }
}

} // verus!
