//! The binary operators.

use crate::ast::{group_ast_views, values_view, BinOp, Expr, SpecValue, Value};
use crate::error::{Error, ErrorType};
use crate::eval::messages::{invalid_operand_message, mismatch_message};
use crate::eval::semantics::{
    apply_binop, arith, fits_i64, same_primitive, trunc_div, trunc_rem,
};
use crate::eval::{value_result, Halt};
use vstd::prelude::*;
use vstd::string::StringExecFns;

verus! {

broadcast use group_ast_views;

/// The type error for an operand `v` of `exp` that is not `what`.
fn invalid_operand<T>(v: &Value, what: &str, exp: &Expr) -> (r: Result<T, Error>)
    ensures
        r matches Err(e) && e.err == ErrorType::Type && e.message@ == invalid_operand_message(
            v@,
            what@,
            exp@,
        ),
{
    let message = String::from_str("`").concat(v.to_string().as_str()).concat("` is not ").concat(
        what,
    ).concat(", so `").concat(exp.to_string().as_str()).concat("` is invalid");
    Error::type_error(message.as_str())
}

/// Evaluate a binary expression on two boolean values yielding a boolean.
pub fn bool_exp<F>(exp: &Expr, val1: Value, val2: Value, func: F) -> (r: Result<Value, Error>) where
    F: Fn(bool, bool) -> bool,

    requires
        match (val1@, val2@) {
            (SpecValue::Bool(a), SpecValue::Bool(b)) => func.requires((a, b)),
            _ => true,
        },
    ensures
        match (val1@, val2@) {
            (SpecValue::Bool(a), SpecValue::Bool(b)) => r matches Ok(v) && v@ matches SpecValue::Bool(
                c,
            ) && func.ensures((a, b), c),
            (SpecValue::Bool(_), _) => r matches Err(e) && e.err == ErrorType::Type && e.message@
                == invalid_operand_message(val2@, "a boolean"@, exp@),
            _ => r matches Err(e) && e.err == ErrorType::Type && e.message@
                == invalid_operand_message(val1@, "a boolean"@, exp@),
        },
{
    match (&val1, &val2) {
        (Value::Bool(b1), Value::Bool(b2)) => Ok(Value::Bool(func(*b1, *b2))),
        (Value::Bool(_), _) => invalid_operand(&val2, "a boolean", exp),
        _ => invalid_operand(&val1, "a boolean", exp),
    }
}

/// Whether two values of the same primitive type are equal.
pub fn primitive_eq(val1: &Value, val2: &Value) -> (b: bool)
    requires
        same_primitive(val1@, val2@),
    ensures
        b == (val1@ == val2@),
{
    match (val1, val2) {
        (Value::Bool(b1), Value::Bool(b2)) => *b1 == *b2,
        (Value::Int(i1), Value::Int(i2)) => *i1 == *i2,
        (Value::Str(a), Value::Str(b)) => *a == *b,
        _ => false,
    }
}

/// Evaluate a binary expression on two same-typed values yielding a boolean.
pub fn eq_exp<F>(exp: &Expr, val1: Value, val2: Value, func: F) -> (r: Result<Value, Error>) where
    F: Fn(Value, Value) -> bool,

    requires
        same_primitive(val1@, val2@) ==> func.requires((val1, val2)),
    ensures
        if same_primitive(val1@, val2@) {
            r matches Ok(v) && v@ matches SpecValue::Bool(c) && func.ensures((val1, val2), c)
        } else {
            r matches Err(e) && e.err == ErrorType::Type && e.message@ == mismatch_message(
                val1@,
                val2@,
                exp@,
            )
        },
{
    let same = match (&val1, &val2) {
        (Value::Bool(_), Value::Bool(_)) => true,
        (Value::Int(_), Value::Int(_)) => true,
        (Value::Str(_), Value::Str(_)) => true,
        _ => false,
    };
    if same {
        Ok(Value::Bool(func(val1, val2)))
    } else {
        let message = String::from_str("`").concat(val1.to_string().as_str()).concat(
            "` is ",
        ).concat(val1.type_string_with_article()).concat(" and `").concat(
            val2.to_string().as_str(),
        ).concat("` is ").concat(val2.type_string_with_article()).concat(", so `").concat(
            exp.to_string().as_str(),
        ).concat("` doesn't make sense");
        Error::type_error(message.as_str())
    }
}

/// Evaluate a binary expression on two int values yielding a boolean.
pub fn ineq_exp<F>(exp: &Expr, val1: Value, val2: Value, func: F) -> (r: Result<Value, Error>) where
    F: Fn(i64, i64) -> bool,

    requires
        match (val1@, val2@) {
            (SpecValue::Int(a), SpecValue::Int(b)) => func.requires((a, b)),
            _ => true,
        },
    ensures
        match (val1@, val2@) {
            (SpecValue::Int(a), SpecValue::Int(b)) => r matches Ok(v) && v@ matches SpecValue::Bool(
                c,
            ) && func.ensures((a, b), c),
            (SpecValue::Int(_), _) => r matches Err(e) && e.err == ErrorType::Type && e.message@
                == invalid_operand_message(val2@, "an int"@, exp@),
            _ => r matches Err(e) && e.err == ErrorType::Type && e.message@
                == invalid_operand_message(val1@, "an int"@, exp@),
        },
{
    match (&val1, &val2) {
        (Value::Int(i1), Value::Int(i2)) => Ok(Value::Bool(func(*i1, *i2))),
        (Value::Int(_), _) => invalid_operand(&val2, "an int", exp),
        _ => invalid_operand(&val1, "an int", exp),
    }
}

/// Evaluate a binary expression on two int values yielding an int.
pub fn arith_exp<F>(exp: &Expr, val1: Value, val2: Value, func: F) -> (r: Result<Value, Error>) where
    F: Fn(i64, i64) -> i64,

    requires
        match (val1@, val2@) {
            (SpecValue::Int(a), SpecValue::Int(b)) => func.requires((a, b)),
            _ => true,
        },
    ensures
        match (val1@, val2@) {
            (SpecValue::Int(a), SpecValue::Int(b)) => r matches Ok(v) && v@ matches SpecValue::Int(
                c,
            ) && func.ensures((a, b), c),
            (SpecValue::Int(_), _) => r matches Err(e) && e.err == ErrorType::Type && e.message@
                == invalid_operand_message(val2@, "an int"@, exp@),
            _ => r matches Err(e) && e.err == ErrorType::Type && e.message@
                == invalid_operand_message(val1@, "an int"@, exp@),
        },
{
    match (&val1, &val2) {
        (Value::Int(i1), Value::Int(i2)) => Ok(Value::Int(func(*i1, *i2))),
        (Value::Int(_), _) => invalid_operand(&val2, "an int", exp),
        _ => invalid_operand(&val1, "an int", exp),
    }
}

/// The result of an operator as the result of an evaluation.
fn lift(r: Result<Value, Error>) -> (out: Result<Value, Halt>)
    ensures
        match r {
            Ok(v) => out == Ok::<Value, Halt>(v),
            Err(e) => out == Err::<Value, Halt>(Halt::Error(e)),
        },
{
    match r {
        Ok(v) => Ok(v),
        Err(e) => Err(Halt::Error(e)),
    }
}

/// Whether `x` can be divided by `y`: `y` is not zero and the quotient fits in 64 bits.
pub open spec fn divisible(x: i64, y: i64) -> bool {
    y != 0 && fits_i64(trunc_div(x as int, y as int))
}

/// The quotient of `x` by `y`, rounded toward zero.
pub open spec fn quotient_of(x: i64, y: i64) -> int {
    trunc_div(x as int, y as int)
}

/// The remainder of `x` by `y`, with the sign of `x`.
pub open spec fn remainder_of(x: i64, y: i64) -> int {
    trunc_rem(x as int, y as int)
}

/// The quotient of `x` by `y`, rounded toward zero.
fn quotient(x: i64, y: i64) -> (z: i64)
    requires
        divisible(x, y),
    ensures
        quotient_of(x, y) == z,
{
    x / y
}

/// The remainder of `x` by `y`, with the sign of `x`.
fn remainder(x: i64, y: i64) -> (z: i64)
    requires
        divisible(x, y),
    ensures
        remainder_of(x, y) == z,
{
    x % y
}

/// The quotient of two 64-bit integers fits in 64 bits, but for the least
/// of them divided by -1.
pub proof fn lemma_quotient_fits(a: i64, b: i64)
    requires
        b != 0,
    ensures
        fits_i64(trunc_div(a as int, b as int)) <==> !(a == i64::MIN && b == -1),
        fits_i64(trunc_rem(a as int, b as int)),
{
    let x: int = if a >= 0 {
        a as int
    } else {
        -(a as int)
    };
    let d = b as int;
    assert(0 <= x <= 0x8000_0000_0000_0000);
    if d > 0 {
        assert(0 <= x / d <= x) by (nonlinear_arith)
            requires
                x >= 0,
                d > 0,
        ;
        assert(0 <= x % d < d) by (nonlinear_arith)
            requires
                x >= 0,
                d > 0,
        ;
    } else {
        assert(-x <= x / d <= 0 && 0 <= x % d < -d) by (nonlinear_arith)
            requires
                x >= 0,
                d < 0,
        ;
        if d == -1 {
            assert(x / d == -x) by (nonlinear_arith)
                requires
                    d == -1,
            ;
        } else {
            assert(2 * (x / d) >= -x) by (nonlinear_arith)
                requires
                    x >= 0,
                    d < -1,
            ;
        }
    }
}

/// Whether the arithmetic operator `op` has a result on `a` and `b`: no
/// division by zero, and a result within 64 bits.
fn arith_defined(op: BinOp, a: i64, b: i64) -> (ok: bool)
    ensures
        ok == (arith(op, a as int, b as int) is Ok),
{
    proof {
        if b != 0 {
            lemma_quotient_fits(a, b);
        }
    }
    match op {
        BinOp::Plus => a.checked_add(b).is_some(),
        BinOp::Minus => a.checked_sub(b).is_some(),
        BinOp::Times => a.checked_mul(b).is_some(),
        _ => b != 0 && !(a == i64::MIN && b == -1),
    }
}

/// The value of the binary expression `exp`, whose operator is `op`, on the
/// values of its operands.
pub fn binary(exp: &Expr, op: BinOp, val1: Value, val2: Value) -> (r: Result<Value, Halt>)
    ensures
        value_result(r) == apply_binop(exp@, op, val1@, val2@),
{
    match op {
        BinOp::And => {
            let and = |x: bool, y: bool| -> (z: bool)
                ensures
                    z == (x && y),
                { x && y };
            lift(bool_exp(exp, val1, val2, and))
        },
        BinOp::Or => {
            let or = |x: bool, y: bool| -> (z: bool)
                ensures
                    z == (x || y),
                { x || y };
            lift(bool_exp(exp, val1, val2, or))
        },
        BinOp::Equal => {
            let eq = |x: Value, y: Value| -> (z: bool)
                requires
                    same_primitive(x@, y@),
                ensures
                    z == (x@ == y@),
                { primitive_eq(&x, &y) };
            lift(eq_exp(exp, val1, val2, eq))
        },
        BinOp::NotEqual => {
            let ne = |x: Value, y: Value| -> (z: bool)
                requires
                    same_primitive(x@, y@),
                ensures
                    z == (x@ != y@),
                { !primitive_eq(&x, &y) };
            lift(eq_exp(exp, val1, val2, ne))
        },
        BinOp::GreaterOrEqual => {
            let ge = |x: i64, y: i64| -> (z: bool)
                ensures
                    z == (x >= y),
                { x >= y };
            lift(ineq_exp(exp, val1, val2, ge))
        },
        BinOp::GreaterThan => {
            let gt = |x: i64, y: i64| -> (z: bool)
                ensures
                    z == (x > y),
                { x > y };
            lift(ineq_exp(exp, val1, val2, gt))
        },
        BinOp::LessOrEqual => {
            let le = |x: i64, y: i64| -> (z: bool)
                ensures
                    z == (x <= y),
                { x <= y };
            lift(ineq_exp(exp, val1, val2, le))
        },
        BinOp::LessThan => {
            let lt = |x: i64, y: i64| -> (z: bool)
                ensures
                    z == (x < y),
                { x < y };
            lift(ineq_exp(exp, val1, val2, lt))
        },
        BinOp::Plus | BinOp::Minus | BinOp::Times | BinOp::Divide | BinOp::Modulus => {
            let defined = match (&val1, &val2) {
                (Value::Int(a), Value::Int(b)) => arith_defined(op, *a, *b),
                _ => true,
            };
            if !defined {
                return Err(Halt::Arithmetic);
            }
            match op {
                BinOp::Plus => {
                    let plus = |x: i64, y: i64| -> (z: i64)
                        requires
                            fits_i64(x + y),
                        ensures
                            z == x + y,
                        { x + y };
                    lift(arith_exp(exp, val1, val2, plus))
                },
                BinOp::Minus => {
                    let minus = |x: i64, y: i64| -> (z: i64)
                        requires
                            fits_i64(x - y),
                        ensures
                            z == x - y,
                        { x - y };
                    lift(arith_exp(exp, val1, val2, minus))
                },
                BinOp::Times => {
                    let times = |x: i64, y: i64| -> (z: i64)
                        requires
                            fits_i64(x * y),
                        ensures
                            z == x * y,
                        { x * y };
                    lift(arith_exp(exp, val1, val2, times))
                },
                BinOp::Divide => {
                    let divide = |x: i64, y: i64| -> (z: i64)
                        requires
                            divisible(x, y),
                        ensures
                            z == quotient_of(x, y),
                        { quotient(x, y) };
                    lift(arith_exp(exp, val1, val2, divide))
                },
                _ => {
                    let modulus = |x: i64, y: i64| -> (z: i64)
                        requires
                            divisible(x, y),
                        ensures
                            z == remainder_of(x, y),
                        { remainder(x, y) };
                    lift(arith_exp(exp, val1, val2, modulus))
                },
            }
        },
        BinOp::Concat => {
            match (val1, val2) {
                (Value::Array(mut v1), Value::Array(mut v2)) => {
                    let ghost a = values_view(v1@);
                    let ghost b = values_view(v2@);
                    v1.append(&mut v2);
                    assert(values_view(v1@) =~= a + b);
                    Ok(Value::Array(v1))
                },
                (Value::Array(_), v2) => lift(invalid_operand(&v2, "an array", exp)),
                (v1, _) => lift(invalid_operand(&v1, "an array", exp)),
            }
        },
    }
}

} // verus!
