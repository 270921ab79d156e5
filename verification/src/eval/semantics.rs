//! What evaluation means: the result of each expression and statement, and
//! the state and mailbox it leaves, as functions of the models.

use crate::ast::{BinOp, SpecExpr, SpecStatement, SpecValue, Type};
use crate::display::{expr_text, stmt_text};
use crate::display::value_text;
use crate::error::{ErrorType, SpecError};
use crate::eval::messages::{
    arity_message, cell_message, error_of, invalid_operand_message, mismatch_message,
    no_value_message, out_of_bounds_message, return_message, senseless_message, step_message,
    undefined_message, unknown_function_message, unknown_variable_message,
};
use crate::state::function::SpecFunction;
use crate::state::{redefined_message, undeclared_message};
use crate::state::SpecState;
use crate::stream::{SpecEvent, SpecStream};
use vstd::prelude::*;
use vstd::utf8::encode_utf8;

verus! {

/// Why an evaluation stopped without a result.
pub enum SpecHalt {
    /// A runtime error of the language.
    Error(SpecError),
    /// A division by zero, or a number that does not fit in 64 bits.
    Arithmetic,
    /// `readline()` found no line of input waiting.
    NeedsInput,
    /// The budget of loop passes and nested calls ran out.
    OutOfFuel,
}

/// What an evaluation gives: its result, and the state and the mailbox
/// as it leaves them.
pub struct Outcome<T> {
    pub result: Result<T, SpecHalt>,
    pub state: SpecState,
    pub stream: SpecStream,
}

impl<T> Outcome<T> {
    pub open spec fn ok(value: T, state: SpecState, stream: SpecStream) -> Outcome<T> {
        Outcome { result: Ok(value), state, stream }
    }

    pub open spec fn halt(h: SpecHalt, state: SpecState, stream: SpecStream) -> Outcome<T> {
        Outcome { result: Err(h), state, stream }
    }

    pub open spec fn error(
        kind: ErrorType,
        message: Seq<char>,
        state: SpecState,
        stream: SpecStream,
    ) -> Outcome<T> {
        Outcome { result: Err(SpecHalt::Error(error_of(kind, message))), state, stream }
    }

    pub open spec fn raise(e: SpecError, state: SpecState, stream: SpecStream) -> Outcome<T> {
        Outcome { result: Err(SpecHalt::Error(e)), state, stream }
    }
}

/// Whether the result is a runtime error of the given kind.
pub open spec fn raises<T>(result: Result<T, SpecHalt>, kind: ErrorType) -> bool {
    result matches Err(SpecHalt::Error(e)) && e.err == kind
}

/// Whether `i` is a 64-bit signed integer.
pub open spec fn fits_i64(i: int) -> bool {
    -0x8000_0000_0000_0000 <= i <= 0x7fff_ffff_ffff_ffff
}

/// The integer `i` as a value, where it fits in 64 bits.
pub open spec fn int_value(i: int) -> Result<SpecValue, SpecHalt> {
    if fits_i64(i) {
        Ok(SpecValue::Int(i as i64))
    } else {
        Err(SpecHalt::Arithmetic)
    }
}

/// The quotient of `a` by `b`, rounded toward zero; `b` is not zero.
pub open spec fn trunc_div(a: int, b: int) -> int {
    if a >= 0 {
        a / b
    } else {
        -((-a) / b)
    }
}

/// The remainder that goes with `trunc_div`: it has the sign of `a`.
pub open spec fn trunc_rem(a: int, b: int) -> int {
    if a >= 0 {
        a % b
    } else {
        -((-a) % b)
    }
}

/// The result of an arithmetic operator on two integers.
pub open spec fn arith(op: BinOp, a: int, b: int) -> Result<SpecValue, SpecHalt> {
    match op {
        BinOp::Plus => int_value(a + b),
        BinOp::Minus => int_value(a - b),
        BinOp::Times => int_value(a * b),
        BinOp::Divide => if b == 0 {
            Err(SpecHalt::Arithmetic)
        } else {
            int_value(trunc_div(a, b))
        },
        _ => if b == 0 || !fits_i64(trunc_div(a, b)) {
            Err(SpecHalt::Arithmetic)
        } else {
            int_value(trunc_rem(a, b))
        },
    }
}

/// The result of a comparison operator on two integers.
pub open spec fn compare(op: BinOp, a: int, b: int) -> bool {
    match op {
        BinOp::GreaterOrEqual => a >= b,
        BinOp::GreaterThan => a > b,
        BinOp::LessOrEqual => a <= b,
        _ => a < b,
    }
}

/// Whether both values are booleans, both integers or both strings.
pub open spec fn same_primitive(v1: SpecValue, v2: SpecValue) -> bool {
    match (v1, v2) {
        (SpecValue::Bool(_), SpecValue::Bool(_)) => true,
        (SpecValue::Int(_), SpecValue::Int(_)) => true,
        (SpecValue::Str(_), SpecValue::Str(_)) => true,
        _ => false,
    }
}

/// The type error for an operand of the binary expression `e` that is not
/// `what`: the right operand is blamed if the left one is `what`.
pub open spec fn operand_error(
    e: SpecExpr,
    left_ok: bool,
    v1: SpecValue,
    v2: SpecValue,
    what: Seq<char>,
) -> Result<SpecValue, SpecHalt> {
    Err(
        SpecHalt::Error(
            error_of(
                ErrorType::Type,
                invalid_operand_message(
                    if left_ok {
                        v2
                    } else {
                        v1
                    },
                    what,
                    e,
                ),
            ),
        ),
    )
}

/// The result of the binary expression `e`, whose operator is `op`, on the
/// values of its two operands.
pub open spec fn apply_binop(e: SpecExpr, op: BinOp, v1: SpecValue, v2: SpecValue) -> Result<
    SpecValue,
    SpecHalt,
> {
    match op {
        BinOp::And => match (v1, v2) {
            (SpecValue::Bool(a), SpecValue::Bool(b)) => Ok(SpecValue::Bool(a && b)),
            _ => operand_error(e, v1 is Bool, v1, v2, "a boolean"@),
        },
        BinOp::Or => match (v1, v2) {
            (SpecValue::Bool(a), SpecValue::Bool(b)) => Ok(SpecValue::Bool(a || b)),
            _ => operand_error(e, v1 is Bool, v1, v2, "a boolean"@),
        },
        BinOp::Equal => if same_primitive(v1, v2) {
            Ok(SpecValue::Bool(v1 == v2))
        } else {
            Err(SpecHalt::Error(error_of(ErrorType::Type, mismatch_message(v1, v2, e))))
        },
        BinOp::NotEqual => if same_primitive(v1, v2) {
            Ok(SpecValue::Bool(v1 != v2))
        } else {
            Err(SpecHalt::Error(error_of(ErrorType::Type, mismatch_message(v1, v2, e))))
        },
        BinOp::GreaterOrEqual | BinOp::GreaterThan | BinOp::LessOrEqual | BinOp::LessThan => match (
            v1,
            v2,
        ) {
            (SpecValue::Int(a), SpecValue::Int(b)) => Ok(
                SpecValue::Bool(compare(op, a as int, b as int)),
            ),
            _ => operand_error(e, v1 is Int, v1, v2, "an int"@),
        },
        BinOp::Plus | BinOp::Minus | BinOp::Times | BinOp::Divide | BinOp::Modulus => match (
            v1,
            v2,
        ) {
            (SpecValue::Int(a), SpecValue::Int(b)) => arith(op, a as int, b as int),
            _ => operand_error(e, v1 is Int, v1, v2, "an int"@),
        },
        BinOp::Concat => match (v1, v2) {
            (SpecValue::Array(a), SpecValue::Array(b)) => Ok(SpecValue::Array(a + b)),
            _ => operand_error(e, v1 is Array, v1, v2, "an array"@),
        },
    }
}

/// The numbers `a`, `a + s`, `a + 2s`, ... that are not above `b`; `s` is positive.
pub open spec fn count_up(a: int, b: int, s: int) -> Seq<int>
    decreases (if a > b { 0 } else { b - a + 1 }),
    when s > 0
{
    if a > b {
        Seq::empty()
    } else {
        seq![a] + count_up(a + s, b, s)
    }
}

/// The numbers `a`, `a + s`, `a + 2s`, ... that are not below `b`; `s` is negative.
pub open spec fn count_down(a: int, b: int, s: int) -> Seq<int>
    decreases (if a < b { 0 } else { a - b + 1 }),
    when s < 0
{
    if a < b {
        Seq::empty()
    } else {
        seq![a] + count_down(a + s, b, s)
    }
}

/// The numbers from `a` to `b` in steps of `s`, which is not zero.
pub open spec fn step_numbers(a: int, b: int, s: int) -> Seq<int> {
    if s > 0 {
        count_up(a, b, s)
    } else {
        count_down(a, b, s)
    }
}

/// The array of the given 64-bit numbers.
pub open spec fn int_array(numbers: Seq<int>) -> SpecValue {
    SpecValue::Array(Seq::new(numbers.len(), |k: int| SpecValue::Int(numbers[k] as i64)))
}

/// The value of `range(a, b)`: from `a` to `b`, both included, upward if
/// `a <= b` and downward otherwise.
pub open spec fn range_value(a: int, b: int) -> SpecValue {
    int_array(step_numbers(a, b, if a <= b { 1int } else { -1int }))
}

/// The value of the expression `step(a, b, s)`, whose text is `whole`, or the
/// error it raises: `s` may not be zero, nor lead away from `b`.
pub open spec fn step_value(whole: Seq<char>, a: int, b: int, s: int) -> Result<
    SpecValue,
    SpecHalt,
> {
    if a < b && s < 0 {
        Err(
            SpecHalt::Error(
                error_of(
                    ErrorType::Step,
                    step_message(whole, a, b, s, "stepping down will never reach the end"@),
                ),
            ),
        )
    } else if a > b && s > 0 {
        Err(
            SpecHalt::Error(
                error_of(
                    ErrorType::Step,
                    step_message(whole, a, b, s, "stepping up will never reach the end"@),
                ),
            ),
        )
    } else if s == 0 {
        Err(
            SpecHalt::Error(
                error_of(
                    ErrorType::Step,
                    step_message(whole, a, b, s, "stepping by 0 will never get anywhere"@),
                ),
            ),
        )
    } else {
        Ok(int_array(step_numbers(a, b, s)))
    }
}

/// The type error for the argument of `length` or `letters`, whose text is
/// `arg`, in the expression whose text is `whole`.
pub open spec fn argument_error(v: SpecValue, arg: Seq<char>, whole: Seq<char>) -> Result<
    SpecValue,
    SpecHalt,
> {
    Err(
        SpecHalt::Error(
            error_of(ErrorType::Type, senseless_message(arg, v.type_of().spec_article(), whole)),
        ),
    )
}

/// The value of `length`: the items of an array, or the bytes of a string.
pub open spec fn length_value(v: SpecValue, arg: Seq<char>, whole: Seq<char>) -> Result<
    SpecValue,
    SpecHalt,
> {
    match v {
        SpecValue::Array(items) => int_value(items.len() as int),
        SpecValue::Str(s) => int_value(encode_utf8(s).len() as int),
        _ => argument_error(v, arg, whole),
    }
}

/// The characters of a text, each as a string of its own.
pub open spec fn letters_of(s: Seq<char>) -> Seq<SpecValue> {
    Seq::new(s.len(), |i: int| SpecValue::Str(seq![s[i]]))
}

/// The value of `letters`: the characters of a string, each as a string.
pub open spec fn letters_value(v: SpecValue, arg: Seq<char>, whole: Seq<char>) -> Result<
    SpecValue,
    SpecHalt,
> {
    match v {
        SpecValue::Str(s) => Ok(SpecValue::Array(letters_of(s))),
        _ => argument_error(v, arg, whole),
    }
}

/// A line of input without its final newline, if it has one.
pub open spec fn strip_newline(s: Seq<char>) -> Seq<char> {
    if s.len() > 0 && s.last() == '\n' {
        s.drop_last()
    } else {
        s
    }
}

/// The index that `v` denotes in an array of `len` items: `v` must be an
/// integer, not negative and below `len`.
pub open spec fn check_index(v: SpecValue, len: nat) -> Result<int, ErrorType> {
    match v {
        SpecValue::Int(i) => if 0 <= i < len {
            Ok(i as int)
        } else {
            Err(ErrorType::ArrayIndexOutOfBounds)
        },
        _ => Err(ErrorType::Type),
    }
}

/// The error for the value `v` of the index whose text is `index`, which
/// is no index into an array of `len` items, in what has the text `whole`: an
/// integer lies outside the array, and another value is no integer.
pub open spec fn index_error(
    v: SpecValue,
    len: nat,
    index: Seq<char>,
    whole: Seq<char>,
) -> SpecError {
    match v {
        SpecValue::Int(i) => error_of(
            ErrorType::ArrayIndexOutOfBounds,
            out_of_bounds_message(index, i as int, len, whole),
        ),
        _ => error_of(
            ErrorType::Type,
            senseless_message(index, v.type_of().spec_article(), whole),
        ),
    }
}

/// The error for the variable `var`, which is bound to the value `found` or
/// not bound at all, where what has the text `whole` indexes it.
pub open spec fn no_array_error(
    var: Seq<char>,
    found: Option<SpecValue>,
    whole: Seq<char>,
) -> SpecError {
    match found {
        Some(v) => error_of(
            ErrorType::Type,
            senseless_message(var, v.type_of().spec_article(), whole),
        ),
        None => error_of(ErrorType::UndefinedVariable, undefined_message(var, whole)),
    }
}

/// The type error for an argument of `range` or `step` that is no integer.
pub open spec fn not_an_int_error(arg: SpecExpr, whole: SpecExpr) -> SpecError {
    error_of(ErrorType::Type, senseless_message(expr_text(arg), "not an int"@, expr_text(whole)))
}

/// The type error for a condition or an iterable of another type than its
/// statement asks for; `construct` is what the statement is called in the
/// message.
pub open spec fn condition_error(e: SpecExpr, v: SpecValue, construct: Seq<char>) -> SpecError {
    error_of(
        ErrorType::Type,
        senseless_message(expr_text(e), v.type_of().spec_article(), construct),
    )
}

/// Whether `path` leads to a cell of `root`: each index lies in the array it
/// is applied to, and each index but the last finds an array.
pub open spec fn valid_path(root: Seq<SpecValue>, path: Seq<int>) -> bool
    decreases path.len(),
{
    if path.len() == 0 {
        false
    } else if !(0 <= path[0] < root.len()) {
        false
    } else if path.len() == 1 {
        true
    } else {
        match root[path[0]] {
            SpecValue::Array(inner) => valid_path(inner, path.drop_first()),
            _ => false,
        }
    }
}

/// The cell of `root` that the valid path `path` leads to.
pub open spec fn get_at(root: Seq<SpecValue>, path: Seq<int>) -> SpecValue
    decreases path.len(),
{
    if path.len() <= 1 {
        root[path[0]]
    } else {
        match root[path[0]] {
            SpecValue::Array(inner) => get_at(inner, path.drop_first()),
            other => other,
        }
    }
}

/// `root` with the cell at the valid path `path` replaced by `v`.
pub open spec fn set_at(root: Seq<SpecValue>, path: Seq<int>, v: SpecValue) -> Seq<SpecValue>
    decreases path.len(),
{
    if path.len() == 0 {
        root
    } else if path.len() == 1 {
        root.update(path[0], v)
    } else {
        match root[path[0]] {
            SpecValue::Array(inner) => root.update(
                path[0],
                SpecValue::Array(set_at(inner, path.drop_first(), v)),
            ),
            _ => root,
        }
    }
}

/// `root` without the cell at the valid path `path`: the array that held the
/// cell is one item shorter.
pub open spec fn remove_at(root: Seq<SpecValue>, path: Seq<int>) -> Seq<SpecValue>
    decreases path.len(),
{
    if path.len() == 0 {
        root
    } else if path.len() == 1 {
        root.remove(path[0])
    } else {
        match root[path[0]] {
            SpecValue::Array(inner) => root.update(
                path[0],
                SpecValue::Array(remove_at(inner, path.drop_first())),
            ),
            _ => root,
        }
    }
}

/// The state after each of `params[i..]` has been bound to the value at the
/// same position of `values`, in the innermost scope.
pub open spec fn bind_params(
    st: SpecState,
    params: Seq<Seq<char>>,
    values: Seq<SpecValue>,
    i: nat,
) -> SpecState
    decreases params.len() - i,
{
    if i >= params.len() {
        st
    } else {
        bind_params(st.define_var(params[i as int], values[i as int]), params, values, i + 1)
    }
}

/// The outcome of an assignment to the variable `var`, which must be visible.
pub open spec fn assign_outcome(
    st: SpecState,
    var: Seq<char>,
    val: SpecValue,
    io: SpecStream,
) -> Outcome<Option<SpecValue>> {
    if st.contains_var(var) {
        Outcome::ok(None, st.assign(var, val), io)
    } else {
        Outcome::error(ErrorType::UndefinedVariable, undeclared_message(var), st, io)
    }
}

/// The outcome of evaluating an expression.
///
/// `fuel` bounds the passes of each loop and the depth of nested calls.
pub open spec fn eval_expr(e: SpecExpr, st: SpecState, io: SpecStream, fuel: nat) -> Outcome<
    SpecValue,
>
    decreases fuel, 0nat, e, 0nat,
{
    match e {
        SpecExpr::Array(items) => {
            let r = eval_exprs_from(items, 0, Seq::empty(), st, io, fuel);
            match r.result {
                Ok(values) => Outcome::ok(SpecValue::Array(values), r.state, r.stream),
                Err(h) => Outcome::halt(h, r.state, r.stream),
            }
        },
        SpecExpr::ArrayElement(var, first, more) => match st.lookup(var) {
            Some(SpecValue::Array(root)) => {
                let r = eval_expr(*first, st, io, fuel);
                match r.result {
                    Err(h) => Outcome::halt(h, r.state, r.stream),
                    Ok(v) => match check_index(v, root.len()) {
                        Err(_) => Outcome::raise(
                            index_error(v, root.len(), expr_text(*first), expr_text(e)),
                            r.state,
                            r.stream,
                        ),
                        Ok(i) => {
                            let p = eval_path(
                                more,
                                0,
                                root[i],
                                seq![i],
                                expr_text(e),
                                r.state,
                                r.stream,
                                fuel,
                            );
                            match p.result {
                                Err(h) => Outcome::halt(h, p.state, p.stream),
                                Ok(found) => Outcome::ok(found.1, p.state, p.stream),
                            }
                        },
                    },
                }
            },
            other => Outcome::raise(no_array_error(var, other, expr_text(e)), st, io),
        },
        SpecExpr::BinExp(l, op, r) => {
            let r1 = eval_expr(*l, st, io, fuel);
            match r1.result {
                Err(h) => Outcome::halt(h, r1.state, r1.stream),
                Ok(v1) => {
                    let r2 = eval_expr(*r, r1.state, r1.stream, fuel);
                    match r2.result {
                        Err(h) => Outcome::halt(h, r2.state, r2.stream),
                        Ok(v2) => Outcome { result: apply_binop(e, op, v1, v2), ..r2 },
                    }
                },
            }
        },
        SpecExpr::Call(name, args) => {
            let r = eval_call(name, args, st, io, fuel);
            match r.result {
                Err(h) => Outcome::halt(h, r.state, r.stream),
                Ok(Some(v)) => Outcome::ok(v, r.state, r.stream),
                Ok(None) => Outcome::error(
                    ErrorType::Type,
                    no_value_message(name, expr_text(e)),
                    r.state,
                    r.stream,
                ),
            }
        },
        SpecExpr::Length(x) => {
            let r = eval_expr(*x, st, io, fuel);
            match r.result {
                Err(h) => Outcome::halt(h, r.state, r.stream),
                Ok(v) => Outcome { result: length_value(v, expr_text(*x), expr_text(e)), ..r },
            }
        },
        SpecExpr::Letters(x) => {
            let r = eval_expr(*x, st, io, fuel);
            match r.result {
                Err(h) => Outcome::halt(h, r.state, r.stream),
                Ok(v) => Outcome { result: letters_value(v, expr_text(*x), expr_text(e)), ..r },
            }
        },
        SpecExpr::Not(x) => {
            let r = eval_expr(*x, st, io, fuel);
            match r.result {
                Err(h) => Outcome::halt(h, r.state, r.stream),
                Ok(SpecValue::Bool(b)) => Outcome::ok(SpecValue::Bool(!b), r.state, r.stream),
                Ok(_) => Outcome::error(
                    ErrorType::Type,
                    senseless_message(expr_text(*x), "not a boolean"@, expr_text(e)),
                    r.state,
                    r.stream,
                ),
            }
        },
        SpecExpr::Range(start, end) => {
            let r1 = eval_expr(*start, st, io, fuel);
            match r1.result {
                Err(h) => Outcome::halt(h, r1.state, r1.stream),
                Ok(SpecValue::Int(a)) => {
                    let r2 = eval_expr(*end, r1.state, r1.stream, fuel);
                    match r2.result {
                        Err(h) => Outcome::halt(h, r2.state, r2.stream),
                        Ok(SpecValue::Int(b)) => Outcome::ok(
                            range_value(a as int, b as int),
                            r2.state,
                            r2.stream,
                        ),
                        Ok(_) => Outcome::raise(not_an_int_error(*end, e), r2.state, r2.stream),
                    }
                },
                Ok(_) => Outcome::raise(not_an_int_error(*start, e), r1.state, r1.stream),
            }
        },
        SpecExpr::ReadLine => {
            let asked = io.read_input();
            if io.inputs.len() > 0 {
                Outcome::ok(SpecValue::Str(strip_newline(io.inputs[0])), st, asked)
            } else {
                Outcome::halt(SpecHalt::NeedsInput, st, asked)
            }
        },
        SpecExpr::Step(start, end, step) => {
            let r1 = eval_expr(*start, st, io, fuel);
            match r1.result {
                Err(h) => Outcome::halt(h, r1.state, r1.stream),
                Ok(SpecValue::Int(a)) => {
                    let r2 = eval_expr(*end, r1.state, r1.stream, fuel);
                    match r2.result {
                        Err(h) => Outcome::halt(h, r2.state, r2.stream),
                        Ok(SpecValue::Int(b)) => {
                            let r3 = eval_expr(*step, r2.state, r2.stream, fuel);
                            match r3.result {
                                Err(h) => Outcome::halt(h, r3.state, r3.stream),
                                Ok(SpecValue::Int(s)) => Outcome {
                                    result: step_value(expr_text(e), a as int, b as int, s as int),
                                    ..r3
                                },
                                Ok(_) => Outcome::raise(
                                    not_an_int_error(*step, e),
                                    r3.state,
                                    r3.stream,
                                ),
                            }
                        },
                        Ok(_) => Outcome::raise(not_an_int_error(*end, e), r2.state, r2.stream),
                    }
                },
                Ok(_) => Outcome::raise(not_an_int_error(*start, e), r1.state, r1.stream),
            }
        },
        SpecExpr::Value(v) => Outcome::ok(v, st, io),
        SpecExpr::Var(name) => match st.lookup(name) {
            Some(v) => Outcome::ok(v, st, io),
            None => Outcome::error(
                ErrorType::UndefinedVariable,
                unknown_variable_message(name),
                st,
                io,
            ),
        },
    }
}

/// The outcome of evaluating `items[i..]` from left to right, behind the
/// values `done` of `items[..i]`: the values of all the items, or the first halt.
pub open spec fn eval_exprs_from(
    items: Seq<SpecExpr>,
    i: nat,
    done: Seq<SpecValue>,
    st: SpecState,
    io: SpecStream,
    fuel: nat,
) -> Outcome<Seq<SpecValue>>
    decreases fuel, 0nat, items, items.len() - i,
{
    if i >= items.len() {
        Outcome::ok(done, st, io)
    } else {
        let r = eval_expr(items[i as int], st, io, fuel);
        match r.result {
            Err(h) => Outcome::halt(h, r.state, r.stream),
            Ok(v) => eval_exprs_from(items, i + 1, done.push(v), r.state, r.stream, fuel),
        }
    }
}

/// The outcome of following the index expressions `more[k..]` from the cell
/// `item`, which `path` leads to: the whole path and the cell it leads to.
/// Each index is evaluated after the cell it is applied to was found to be
/// an array, and checked against that array before the next is evaluated.
/// `whole` is the text of what holds the indexes, for the messages.
pub open spec fn eval_path(
    more: Seq<SpecExpr>,
    k: nat,
    item: SpecValue,
    path: Seq<int>,
    whole: Seq<char>,
    st: SpecState,
    io: SpecStream,
    fuel: nat,
) -> Outcome<(Seq<int>, SpecValue)>
    decreases fuel, 0nat, more, more.len() - k,
{
    if k >= more.len() {
        Outcome::ok((path, item), st, io)
    } else {
        match item {
            SpecValue::Array(next) => {
                let r = eval_expr(more[k as int], st, io, fuel);
                match r.result {
                    Err(h) => Outcome::halt(h, r.state, r.stream),
                    Ok(v) => match check_index(v, next.len()) {
                        Err(_) => Outcome::raise(
                            index_error(v, next.len(), expr_text(more[k as int]), whole),
                            r.state,
                            r.stream,
                        ),
                        Ok(j) => eval_path(
                            more,
                            k + 1,
                            next[j],
                            path.push(j),
                            whole,
                            r.state,
                            r.stream,
                            fuel,
                        ),
                    },
                }
            },
            _ => Outcome::error(
                ErrorType::Type,
                cell_message(item.type_of().spec_article(), whole),
                st,
                io,
            ),
        }
    }
}

/// The outcome of calling the function `name` with the arguments `args`.
///
/// The function must be defined and take as many parameters as there are
/// arguments. The arguments are evaluated in the caller's scope, from left to
/// right. The body runs in a new scope that binds each parameter to its
/// argument, and that scope is closed on every path. The value returned must
/// be of the function's return type; a function of another return type than
/// `void` must return one.
pub open spec fn eval_call(
    name: Seq<char>,
    args: Seq<SpecExpr>,
    st: SpecState,
    io: SpecStream,
    fuel: nat,
) -> Outcome<Option<SpecValue>>
    decreases fuel, 0nat, args, args.len() + 1,
{
    if !st.functions.contains_key(name) {
        Outcome::error(ErrorType::UndefinedFunction, unknown_function_message(name), st, io)
    } else {
        let f = st.functions[name];
        if f.params.len() != args.len() {
            Outcome::error(
                ErrorType::Argument,
                arity_message(name, f.params.len(), args.len()),
                st,
                io,
            )
        } else {
            let a = eval_exprs_from(args, 0, Seq::empty(), st, io, fuel);
            match a.result {
                Err(h) => Outcome::halt(h, a.state, a.stream),
                Ok(values) => if fuel == 0 {
                    Outcome::halt(SpecHalt::OutOfFuel, a.state, a.stream)
                } else {
                    let entered = bind_params(a.state.enter_scope(), f.params, values, 0);
                    let b = eval_block_from(f.body, 0, entered, a.stream, (fuel - 1) as nat);
                    let left = b.state.exit_scope();
                    match b.result {
                        Err(h) => Outcome::halt(h, left, b.stream),
                        Ok(Some(v)) => if v.type_of() == f.return_type {
                            Outcome::ok(Some(v), left, b.stream)
                        } else {
                            Outcome::error(
                                ErrorType::Type,
                                return_message(name, f.return_type, v.type_of().spec_article()),
                                left,
                                b.stream,
                            )
                        },
                        Ok(None) => if f.return_type != Type::Void {
                            Outcome::error(
                                ErrorType::Type,
                                return_message(name, f.return_type, "nothing"@),
                                left,
                                b.stream,
                            )
                        } else {
                            Outcome::ok(None, left, b.stream)
                        },
                    }
                },
            }
        }
    }
}

/// The outcome of evaluating a statement: `Some(v)` where a `return` fired
/// with the value `v`, `None` where the statement ran to its end.
pub open spec fn eval_stmt(s: SpecStatement, st: SpecState, io: SpecStream, fuel: nat) -> Outcome<
    Option<SpecValue>,
>
    decreases fuel, 1nat, s, 0nat,
{
    let whole = strip_newline(stmt_text(s, Seq::empty()));
    match s {
        SpecStatement::ArrayElemAssign(var, first, more, e) => match st.lookup(var) {
            Some(SpecValue::Array(root)) => {
                let r = eval_expr(first, st, io, fuel);
                match r.result {
                    Err(h) => Outcome::halt(h, r.state, r.stream),
                    Ok(v) => match check_index(v, root.len()) {
                        Err(_) => Outcome::raise(
                            index_error(v, root.len(), expr_text(first), whole),
                            r.state,
                            r.stream,
                        ),
                        Ok(i) => {
                            let p = eval_path(
                                more,
                                0,
                                root[i],
                                seq![i],
                                whole,
                                r.state,
                                r.stream,
                                fuel,
                            );
                            match p.result {
                                Err(h) => Outcome::halt(h, p.state, p.stream),
                                Ok(found) => {
                                    let r2 = eval_expr(e, p.state, p.stream, fuel);
                                    match r2.result {
                                        Err(h) => Outcome::halt(h, r2.state, r2.stream),
                                        Ok(val) => assign_outcome(
                                            r2.state,
                                            var,
                                            SpecValue::Array(set_at(root, found.0, val)),
                                            r2.stream,
                                        ),
                                    }
                                },
                            }
                        },
                    },
                }
            },
            other => Outcome::raise(no_array_error(var, other, whole), st, io),
        },
        SpecStatement::Delete(var, first, more) => match st.lookup(var) {
            Some(SpecValue::Array(root)) => {
                let r = eval_expr(first, st, io, fuel);
                match r.result {
                    Err(h) => Outcome::halt(h, r.state, r.stream),
                    Ok(v) => match check_index(v, root.len()) {
                        Err(_) => Outcome::raise(
                            index_error(v, root.len(), expr_text(first), whole),
                            r.state,
                            r.stream,
                        ),
                        Ok(i) => {
                            let p = eval_path(
                                more,
                                0,
                                root[i],
                                seq![i],
                                whole,
                                r.state,
                                r.stream,
                                fuel,
                            );
                            match p.result {
                                Err(h) => Outcome::halt(h, p.state, p.stream),
                                Ok(found) => assign_outcome(
                                    p.state,
                                    var,
                                    SpecValue::Array(remove_at(root, found.0)),
                                    p.stream,
                                ),
                            }
                        },
                    },
                }
            },
            other => Outcome::raise(no_array_error(var, other, whole), st, io),
        },
        SpecStatement::Defun(t, name, params, body) => {
            if st.functions.contains_key(name) {
                Outcome::error(ErrorType::RedefinedFunction, redefined_message(name), st, io)
            } else {
                Outcome::ok(
                    None,
                    st.define_func(
                        name,
                        SpecFunction { return_type: t, params, body },
                    ),
                    io,
                )
            }
        },
        SpecStatement::For(var, e, block) => {
            let r = eval_expr(e, st, io, fuel);
            match r.result {
                Err(h) => Outcome::halt(h, r.state, r.stream),
                Ok(SpecValue::Array(items)) => eval_for_from(
                    var,
                    items,
                    0,
                    block,
                    r.state,
                    r.stream,
                    fuel,
                ),
                Ok(v) => Outcome::raise(
                    condition_error(e, v, "for "@ + var + " in "@ + expr_text(e) + " ..."@),
                    r.state,
                    r.stream,
                ),
            }
        },
        SpecStatement::If(c, block1, block2) => {
            let r = eval_expr(c, st, io, fuel);
            match r.result {
                Err(h) => Outcome::halt(h, r.state, r.stream),
                Ok(SpecValue::Bool(b)) => eval_block_from(
                    if b {
                        block1
                    } else {
                        block2
                    },
                    0,
                    r.state,
                    r.stream,
                    fuel,
                ),
                Ok(v) => Outcome::raise(
                    condition_error(c, v, "if ("@ + expr_text(c) + ") ..."@),
                    r.state,
                    r.stream,
                ),
            }
        },
        SpecStatement::Let(var, e) => {
            let r = eval_expr(e, st, io, fuel);
            match r.result {
                Err(h) => Outcome::halt(h, r.state, r.stream),
                Ok(v) => Outcome::ok(None, r.state.define_var(var, v), r.stream),
            }
        },
        SpecStatement::Print(e) => {
            let r = eval_expr(e, st, io, fuel);
            match r.result {
                Err(h) => Outcome::halt(h, r.state, r.stream),
                Ok(v) => Outcome::ok(
                    None,
                    r.state,
                    r.stream.emit(SpecEvent::Output(value_text(v))),
                ),
            }
        },
        SpecStatement::PrintLine(e) => {
            let r = eval_expr(e, st, io, fuel);
            match r.result {
                Err(h) => Outcome::halt(h, r.state, r.stream),
                Ok(v) => Outcome::ok(
                    None,
                    r.state,
                    r.stream.emit(SpecEvent::Output(value_text(v) + "\n"@)),
                ),
            }
        },
        SpecStatement::Return(e) => {
            let r = eval_expr(e, st, io, fuel);
            match r.result {
                Err(h) => Outcome::halt(h, r.state, r.stream),
                Ok(v) => Outcome::ok(Some(v), r.state, r.stream),
            }
        },
        SpecStatement::VarAssign(var, e) => {
            let r = eval_expr(e, st, io, fuel);
            match r.result {
                Err(h) => Outcome::halt(h, r.state, r.stream),
                Ok(v) => assign_outcome(r.state, var, v, r.stream),
            }
        },
        SpecStatement::VoidCall(name, args) => {
            let r = eval_call(name, args, st, io, fuel);
            match r.result {
                Err(h) => Outcome::halt(h, r.state, r.stream),
                Ok(_) => Outcome::ok(None, r.state, r.stream),
            }
        },
        SpecStatement::While(c, block) => {
            let r = eval_expr(c, st, io, fuel);
            match r.result {
                Err(h) => Outcome::halt(h, r.state, r.stream),
                Ok(SpecValue::Bool(true)) => {
                    let b = eval_block_from(block, 0, r.state, r.stream, fuel);
                    match b.result {
                        Err(h) => Outcome::halt(h, b.state, b.stream),
                        Ok(Some(v)) => Outcome::ok(Some(v), b.state, b.stream),
                        Ok(None) => if fuel == 0 {
                            Outcome::halt(SpecHalt::OutOfFuel, b.state, b.stream)
                        } else {
                            eval_stmt(s, b.state, b.stream, (fuel - 1) as nat)
                        },
                    }
                },
                Ok(SpecValue::Bool(false)) => Outcome::ok(None, r.state, r.stream),
                Ok(v) => Outcome::raise(
                    condition_error(c, v, "while ("@ + expr_text(c) + ") ..."@),
                    r.state,
                    r.stream,
                ),
            }
        },
    }
}

/// The outcome of running the statements `block[i..]` in order: the value of
/// the first `return` that fires, the first halt, or `None` at the end.
pub open spec fn eval_block_from(
    block: Seq<SpecStatement>,
    i: nat,
    st: SpecState,
    io: SpecStream,
    fuel: nat,
) -> Outcome<Option<SpecValue>>
    decreases fuel, 1nat, block, block.len() - i,
{
    if i >= block.len() {
        Outcome::ok(None, st, io)
    } else {
        let r = eval_stmt(block[i as int], st, io, fuel);
        match r.result {
            Err(h) => Outcome::halt(h, r.state, r.stream),
            Ok(Some(v)) => Outcome::ok(Some(v), r.state, r.stream),
            Ok(None) => eval_block_from(block, i + 1, r.state, r.stream, fuel),
        }
    }
}

/// The outcome of the passes of a `for` loop over `items[i..]`: each pass
/// binds `var` to the item in the innermost scope and runs `block`.
pub open spec fn eval_for_from(
    var: Seq<char>,
    items: Seq<SpecValue>,
    i: nat,
    block: Seq<SpecStatement>,
    st: SpecState,
    io: SpecStream,
    fuel: nat,
) -> Outcome<Option<SpecValue>>
    decreases fuel, 1nat, block, block.len() + 1 + items.len() - i,
{
    if i >= items.len() {
        Outcome::ok(None, st, io)
    } else {
        let r = eval_block_from(block, 0, st.define_var(var, items[i as int]), io, fuel);
        match r.result {
            Err(h) => Outcome::halt(h, r.state, r.stream),
            Ok(Some(v)) => Outcome::ok(Some(v), r.state, r.stream),
            Ok(None) => eval_for_from(var, items, i + 1, block, r.state, r.stream, fuel),
        }
    }
}

/// The outcome of running the statements `program[i..]` at the top level:
/// each runs to its end or to its `return`, and the first halt ends the run.
pub open spec fn run_from(
    program: Seq<SpecStatement>,
    i: nat,
    st: SpecState,
    io: SpecStream,
    fuel: nat,
) -> Outcome<()>
    decreases program.len() - i,
{
    if i >= program.len() {
        Outcome::ok((), st, io)
    } else {
        let r = eval_stmt(program[i as int], st, io, fuel);
        match r.result {
            Err(h) => Outcome::halt(h, r.state, r.stream),
            Ok(_) => run_from(program, i + 1, r.state, r.stream, fuel),
        }
    }
}

} // verus!
