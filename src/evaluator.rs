//! A sound constant evaluator: it returns a value only where the expression is
//! that value whatever the program does, and `Unknown` otherwise.
//!
//! Numbers are folded as integers, and only while they stay within 2^53, where
//! every integer is exact in the language's floating-point numbers: so integer
//! arithmetic and the runtime's arithmetic agree on every folded value.
use vstd::prelude::*;
use crate::nodes::{BinaryOperator, Expression, SExpression, UnaryOperator};
use crate::text::{chars_of, push_chars};

verus! {

pub const EXACT_LIMIT: i64 = 9007199254740992;

#[derive(Debug, PartialEq)]
pub enum LuaValue {
    Nil,
    Boolean(bool),
    Number(i64),
    String(String),
    Unknown,
}

pub enum SValue {
    Nil,
    Boolean(bool),
    Number(int),
    String(Seq<char>),
    Unknown,
}

impl LuaValue {
    pub open spec fn view(&self) -> SValue {
        match self {
            LuaValue::Nil => SValue::Nil,
            LuaValue::Boolean(b) => SValue::Boolean(*b),
            LuaValue::Number(n) => SValue::Number(*n as int),
            LuaValue::String(s) => SValue::String(s@),
            LuaValue::Unknown => SValue::Unknown,
        }
    }
}

pub open spec fn exact(n: int) -> bool {
    -EXACT_LIMIT <= n <= EXACT_LIMIT
}

pub open spec fn number_or_unknown(n: int) -> SValue {
    if exact(n) { SValue::Number(n) } else { SValue::Unknown }
}

/// The value of an expression where it is a constant.
pub open spec fn eval(e: SExpression) -> SValue
    decreases e,
{
    match e {
        SExpression::Nil => SValue::Nil,
        SExpression::True => SValue::Boolean(true),
        SExpression::False => SValue::Boolean(false),
        SExpression::Number(n) => number_or_unknown(n as int),
        SExpression::String(s) => SValue::String(s),
        SExpression::Parenthese(inner) => eval(*inner),
        SExpression::Unary { operator, operand } => {
            let v = eval(*operand);
            match operator {
                UnaryOperator::Minus => match v {
                    SValue::Number(n) => SValue::Number(-n),
                    _ => SValue::Unknown,
                },
                UnaryOperator::Not => match v {
                    SValue::Nil => SValue::Boolean(true),
                    SValue::Boolean(b) => SValue::Boolean(!b),
                    SValue::Number(_) => SValue::Boolean(false),
                    SValue::String(_) => SValue::Boolean(false),
                    SValue::Unknown => SValue::Unknown,
                },
                UnaryOperator::Length => match v {
                    SValue::String(s) => number_or_unknown(s.len() as int),
                    _ => SValue::Unknown,
                },
            }
        },
        SExpression::Binary { operator, left, right } => {
            let l = eval(*left);
            let r = eval(*right);
            match (l, r) {
                (SValue::Number(a), SValue::Number(b)) => match operator {
                    BinaryOperator::Plus => number_or_unknown(a + b),
                    BinaryOperator::Minus => number_or_unknown(a - b),
                    BinaryOperator::Asterisk => number_or_unknown(a * b),
                    _ => SValue::Unknown,
                },
                (SValue::String(a), SValue::String(b)) => match operator {
                    BinaryOperator::Concat => SValue::String(a + b),
                    _ => SValue::Unknown,
                },
                _ => SValue::Unknown,
            }
        },
        _ => SValue::Unknown,
    }
}

fn number_value(n: i128) -> (r: LuaValue)
    ensures
        r.view() == number_or_unknown(n as int),
{
    if -(EXACT_LIMIT as i128) <= n && n <= EXACT_LIMIT as i128 {
        LuaValue::Number(n as i64)
    } else {
        LuaValue::Unknown
    }
}

/// Evaluates an expression to a constant, or to `Unknown`.
pub fn evaluate(e: &Expression) -> (r: LuaValue)
    ensures
        r.view() == eval(e.view()),
        r matches LuaValue::Number(n) ==> exact(n as int),
    decreases e,
{
    match e {
        Expression::Nil => LuaValue::Nil,
        Expression::True => LuaValue::Boolean(true),
        Expression::False => LuaValue::Boolean(false),
        Expression::Number(n) => number_value(*n as i128),
        Expression::String(s) => LuaValue::String(s.clone()),
        Expression::Parenthese(inner) => evaluate(inner),
        Expression::Unary { operator, operand } => {
            let v = evaluate(operand);
            match operator {
                UnaryOperator::Minus => match v {
                    LuaValue::Number(n) => LuaValue::Number(-n),
                    _ => LuaValue::Unknown,
                },
                UnaryOperator::Not => match v {
                    LuaValue::Nil => LuaValue::Boolean(true),
                    LuaValue::Boolean(b) => LuaValue::Boolean(!b),
                    LuaValue::Number(_) => LuaValue::Boolean(false),
                    LuaValue::String(_) => LuaValue::Boolean(false),
                    LuaValue::Unknown => LuaValue::Unknown,
                },
                UnaryOperator::Length => match v {
                    LuaValue::String(s) => {
                        let n = chars_of(s.as_str()).len();
                        number_value(n as i128)
                    },
                    _ => LuaValue::Unknown,
                },
            }
        },
        Expression::Binary { operator, left, right } => {
            let l = evaluate(left);
            let r = evaluate(right);
            match (l, r) {
                (LuaValue::Number(a), LuaValue::Number(b)) => match operator {
                    BinaryOperator::Plus => number_value(a as i128 + b as i128),
                    BinaryOperator::Minus => number_value(a as i128 - b as i128),
                    BinaryOperator::Asterisk => {
                        assert(-EXACT_LIMIT * EXACT_LIMIT <= a * b <= EXACT_LIMIT * EXACT_LIMIT) by (nonlinear_arith)
                            requires
                                -EXACT_LIMIT <= a <= EXACT_LIMIT,
                                -EXACT_LIMIT <= b <= EXACT_LIMIT,
                        ;
                        number_value(a as i128 * b as i128)
                    },
                    _ => LuaValue::Unknown,
                },
                (LuaValue::String(a), LuaValue::String(b)) => match operator {
                    BinaryOperator::Concat => {
                        let mut s = a;
                        push_chars(&mut s, &chars_of(b.as_str()));
                        LuaValue::String(s)
                    },
                    _ => LuaValue::Unknown,
                },
                _ => LuaValue::Unknown,
            }
        },
        _ => LuaValue::Unknown,
    }
}

} // verus!
