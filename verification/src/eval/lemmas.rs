//! What follows from the meaning of evaluation: the shape of the arrays that
//! `range` and `step` make, and the errors that every evaluation of a faulty
//! index, step, return or definition raises.

use crate::ast::{SpecExpr, SpecStatement, SpecValue, Type};
use crate::display::{expr_text, stmt_text};
use crate::error::ErrorType;
use crate::eval::semantics::{
    bind_params, check_index, count_down, count_up, eval_block_from, eval_call, eval_expr,
    eval_exprs_from, eval_for_from, eval_path, eval_stmt, raises, range_value, run_from,
    step_numbers, step_value, strip_newline, SpecHalt,
};
use crate::state::scope::chain_len;
use crate::state::SpecState;
use crate::stream::SpecStream;
use vstd::prelude::*;

verus! {

/// Counting up from `a` to `b` in steps of `s` gives the numbers `a + k * s`
/// for `k` from 0 up to the quotient of `b - a` by `s`.
pub proof fn lemma_count_up(a: int, b: int, s: int)
    requires
        s > 0,
        a <= b,
    ensures
        count_up(a, b, s).len() == (b - a) / s + 1,
        forall|k: int| 0 <= k < count_up(a, b, s).len() ==> count_up(a, b, s)[k] == a + k * s,
    decreases b - a,
{
    let all = count_up(a, b, s);
    let rest = count_up(a + s, b, s);
    assert(all =~= seq![a] + rest);
    let d = b - a;
    if a + s > b {
        assert(rest =~= Seq::<int>::empty());
        assert(d / s == 0) by (nonlinear_arith)
            requires
                0 <= d < s,
        ;
        assert(a + 0 * s == a);
    } else {
        lemma_count_up(a + s, b, s);
        assert((d - s) / s == d / s - 1) by (nonlinear_arith)
            requires
                s > 0,
                d >= s,
        ;
        assert forall|k: int| 0 <= k < all.len() implies all[k] == a + k * s by {
            if k == 0 {
                assert(a + 0 * s == a);
            } else {
                assert(all[k] == rest[k - 1]);
                assert((a + s) + (k - 1) * s == a + k * s) by (nonlinear_arith);
            }
        }
    }
}

/// Counting down from `a` to `b` in steps of `s` gives the numbers
/// `a + k * s` for `k` from 0 up to the quotient of `a - b` by `-s`.
pub proof fn lemma_count_down(a: int, b: int, s: int)
    requires
        s < 0,
        a >= b,
    ensures
        count_down(a, b, s).len() == (a - b) / (-s) + 1,
        forall|k: int| 0 <= k < count_down(a, b, s).len() ==> count_down(a, b, s)[k] == a + k * s,
    decreases a - b,
{
    let all = count_down(a, b, s);
    let rest = count_down(a + s, b, s);
    assert(all =~= seq![a] + rest);
    let d = a - b;
    let t = -s;
    if a + s < b {
        assert(rest =~= Seq::<int>::empty());
        assert(d / t == 0) by (nonlinear_arith)
            requires
                0 <= d < t,
        ;
        assert(a + 0 * s == a);
    } else {
        lemma_count_down(a + s, b, s);
        assert((d - t) / t == d / t - 1) by (nonlinear_arith)
            requires
                t > 0,
                d >= t,
        ;
        assert forall|k: int| 0 <= k < all.len() implies all[k] == a + k * s by {
            if k == 0 {
                assert(a + 0 * s == a);
            } else {
                assert(all[k] == rest[k - 1]);
                assert((a + s) + (k - 1) * s == a + k * s) by (nonlinear_arith);
            }
        }
    }
}

/// Whether `b` is `k` steps of `s` away from `a`.
pub open spec fn steps_away(a: int, b: int, s: int, k: int) -> bool {
    k >= 0 && a + k * s == b
}

/// Where `b` is `k` steps away from `a`, counting from `a` to `b` ends with `b`.
proof fn lemma_last_step(a: int, b: int, s: int, k: int)
    requires
        (s > 0 && a <= b) || (s < 0 && a >= b),
        k >= 0,
        a + k * s == b,
    ensures
        step_numbers(a, b, s).last() == b,
{
    let v = step_numbers(a, b, s);
    let n = v.len() as int;
    if s > 0 {
        lemma_count_up(a, b, s);
        let d = b - a;
        assert(k == d / s) by (nonlinear_arith)
            requires
                s > 0,
                k >= 0,
                k * s == d,
        ;
    } else {
        lemma_count_down(a, b, s);
        let d = a - b;
        let t = -s;
        assert(k * t == -(k * s)) by (nonlinear_arith)
            requires
                t == -s,
        ;
        assert(k == d / t) by (nonlinear_arith)
            requires
                t > 0,
                k >= 0,
                k * t == d,
        ;
    }
    assert(v.last() == a + (n - 1) * s);
}

/// `step(a, b, s)` with a step that leads toward `b` gives all the numbers
/// `a + k * s` with `k` not negative that are not past `b`, in order: it
/// begins with `a`, no number of it is past `b`, the number that would come
/// next is past `b`, and it ends with `b` where `b` is a whole number of steps
/// away from `a`.
pub proof fn lemma_step_numbers(a: int, b: int, s: int)
    requires
        (s > 0 && a <= b) || (s < 0 && a >= b),
    ensures
        ({
            let v = step_numbers(a, b, s);
            &&& v.len() >= 1
            &&& v[0] == a
            &&& forall|k: int| 0 <= k < v.len() ==> #[trigger] v[k] == a + k * s
            &&& forall|k: int|
                0 <= k < v.len() ==> if s > 0 {
                    a <= #[trigger] v[k] <= b
                } else {
                    a >= v[k] >= b
                }
            &&& if s > 0 {
                a + v.len() * s > b
            } else {
                a + v.len() * s < b
            }
            &&& (exists|k: int| steps_away(a, b, s, k)) ==> v.last() == b
        }),
{
    let v = step_numbers(a, b, s);
    let n = v.len() as int;
    assert forall|k: int| steps_away(a, b, s, k) implies v.last() == b by {
        lemma_last_step(a, b, s, k);
    }
    if s > 0 {
        lemma_count_up(a, b, s);
        let d = b - a;
        assert(d / s >= 0 && (d / s) * s <= d < (d / s + 1) * s && d == (d / s) * s + d % s)
            by (nonlinear_arith)
            requires
                s > 0,
                d >= 0,
        ;
        assert(a + 0 * s == a);
        assert forall|k: int| 0 <= k < v.len() implies a <= #[trigger] v[k] <= b by {
            assert(0 <= k * s <= (d / s) * s) by (nonlinear_arith)
                requires
                    s > 0,
                    0 <= k <= d / s,
            ;
        }
        assert(a + n * s > b);
    } else {
        lemma_count_down(a, b, s);
        let d = a - b;
        let t = -s;
        assert(d / t >= 0 && (d / t) * t <= d < (d / t + 1) * t && d == (d / t) * t + d % t)
            by (nonlinear_arith)
            requires
                t > 0,
                d >= 0,
        ;
        assert(a + 0 * s == a);
        assert forall|k: int| 0 <= k < v.len() implies a >= #[trigger] v[k] >= b by {
            assert(0 <= k * t <= (d / t) * t && k * s == -(k * t)) by (nonlinear_arith)
                requires
                    t > 0,
                    t == -s,
                    0 <= k <= d / t,
            ;
        }
        assert(n * s == -(n * t)) by (nonlinear_arith)
            requires
                t == -s,
        ;
        assert(a + n * s < b);
    }
}

/// `range(a, b)` is the array of the numbers from `a` to `b`, both
/// included, upward if `a <= b` and downward otherwise.
pub proof fn lemma_range_value(a: i64, b: i64)
    ensures
        range_value(a as int, b as int) matches SpecValue::Array(v) && v.len() == (if a <= b {
            b - a + 1
        } else {
            a - b + 1
        }) && v[0] == SpecValue::Int(a) && v.last() == SpecValue::Int(b) && (forall|k: int|
            0 <= k < v.len() ==> #[trigger] v[k] == SpecValue::Int(
                (if a <= b {
                    a + k
                } else {
                    a - k
                }) as i64,
            )),
{
    let s: int = if a <= b {
        1
    } else {
        -1
    };
    lemma_step_numbers(a as int, b as int, s);
    let numbers = step_numbers(a as int, b as int, s);
    if a <= b {
        lemma_count_up(a as int, b as int, 1);
    } else {
        lemma_count_down(a as int, b as int, -1);
    }
    let steps: int = if a <= b {
        b - a
    } else {
        a - b
    };
    assert(steps >= 0 && a + steps * s == b) by (nonlinear_arith)
        requires
            (s == 1 && steps == b - a) || (s == -1 && steps == a - b),
            steps >= 0,
    ;
    assert(steps_away(a as int, b as int, s, steps));
    assert forall|k: int| 0 <= k < numbers.len() implies #[trigger] numbers[k] == (if a <= b {
        a + k
    } else {
        a - k
    }) by {
        assert(numbers[k] == a + k * s);
        assert(k * s == if a <= b {
            k
        } else {
            -k
        }) by (nonlinear_arith)
            requires
                s == (if a <= b {
                    1int
                } else {
                    -1int
                }),
        ;
    }
}

/// `step(a, b, s)` with `a`, `b` and `s` of 64 bits is the array of the
/// numbers `a + k * s` that are not past `b`, and ends with `b` where `b`
/// is a whole number of steps away from `a`.
pub proof fn lemma_step_value(whole: Seq<char>, a: i64, b: i64, s: i64)
    requires
        (s > 0 && a <= b) || (s < 0 && a >= b),
    ensures
        step_value(whole, a as int, b as int, s as int) matches Ok(SpecValue::Array(v)) && v.len()
            == step_numbers(a as int, b as int, s as int).len() && (forall|k: int|
            0 <= k < v.len() ==> #[trigger] v[k] == SpecValue::Int((a + k * s) as i64)) && ((
        exists|k: int| steps_away(a as int, b as int, s as int, k)) ==> v.last() == SpecValue::Int(b)),
{
    lemma_step_numbers(a as int, b as int, s as int);
}

/// A step of zero, and a step that leads away from the end, raise `Step`.
pub proof fn lemma_step_refused(whole: Seq<char>, a: int, b: int, s: int)
    requires
        s == 0 || (a < b && s < 0) || (a > b && s > 0),
    ensures
        raises(step_value(whole, a, b, s), ErrorType::Step),
{
}

/// Every evaluation of `step(first, end, step)` whose arguments evaluate to
/// integers, the last of them to zero, raises `Step`.
pub proof fn lemma_step_by_zero(
    first: SpecExpr,
    end: SpecExpr,
    step: SpecExpr,
    st: SpecState,
    io: SpecStream,
    fuel: nat,
)
    requires
        ({
            let r1 = eval_expr(first, st, io, fuel);
            let r2 = eval_expr(end, r1.state, r1.stream, fuel);
            let r3 = eval_expr(step, r2.state, r2.stream, fuel);
            &&& r1.result matches Ok(SpecValue::Int(_))
            &&& r2.result matches Ok(SpecValue::Int(_))
            &&& r3.result == Ok::<SpecValue, SpecHalt>(SpecValue::Int(0))
        }),
    ensures
        raises(
            eval_expr(
                SpecExpr::Step(Box::new(first), Box::new(end), Box::new(step)),
                st,
                io,
                fuel,
            ).result,
            ErrorType::Step,
        ),
{
}

/// An integer that is negative, or not less than the length of the array,
/// is out of bounds as an index into it; a value that is no integer is
/// a type error.
pub proof fn lemma_check_index(v: SpecValue, len: nat)
    ensures
        match v {
            SpecValue::Int(i) => if i < 0 || i >= len {
                check_index(v, len) == Err::<int, ErrorType>(ErrorType::ArrayIndexOutOfBounds)
            } else {
                check_index(v, len) == Ok::<int, ErrorType>(i as int)
            },
            _ => check_index(v, len) == Err::<int, ErrorType>(ErrorType::Type),
        },
{
}

/// Every evaluation of `var[first]...` in which `var` is an array and
/// `first` evaluates to an integer that is negative or not less than the
/// array's length raises `ArrayIndexOutOfBounds`.
pub proof fn lemma_first_index_out_of_bounds(
    var: Seq<char>,
    first: SpecExpr,
    more: Seq<SpecExpr>,
    st: SpecState,
    io: SpecStream,
    fuel: nat,
)
    requires
        st.lookup(var) matches Some(SpecValue::Array(root)) && eval_expr(
            first,
            st,
            io,
            fuel,
        ).result matches Ok(SpecValue::Int(i)) && (i < 0 || i >= root.len()),
    ensures
        raises(
            eval_expr(SpecExpr::ArrayElement(var, Box::new(first), more), st, io, fuel).result,
            ErrorType::ArrayIndexOutOfBounds,
        ),
{
}

/// Every assignment to `var[first]...` in which `var` is an array and
/// `first` evaluates to an integer that is negative or not less than the
/// array's length raises `ArrayIndexOutOfBounds`, and so does every `delete`
/// of such a cell.
pub proof fn lemma_statement_index_out_of_bounds(
    var: Seq<char>,
    first: SpecExpr,
    more: Seq<SpecExpr>,
    e: SpecExpr,
    st: SpecState,
    io: SpecStream,
    fuel: nat,
)
    requires
        st.lookup(var) matches Some(SpecValue::Array(root)) && eval_expr(
            first,
            st,
            io,
            fuel,
        ).result matches Ok(SpecValue::Int(i)) && (i < 0 || i >= root.len()),
    ensures
        raises(
            eval_stmt(SpecStatement::ArrayElemAssign(var, first, more, e), st, io, fuel).result,
            ErrorType::ArrayIndexOutOfBounds,
        ),
        raises(
            eval_stmt(SpecStatement::Delete(var, first, more), st, io, fuel).result,
            ErrorType::ArrayIndexOutOfBounds,
        ),
{
}

/// At every further level of indexing, an index that evaluates to an
/// integer that is negative or not less than the length of the array it is
/// applied to raises `ArrayIndexOutOfBounds`.
pub proof fn lemma_later_index_out_of_bounds(
    more: Seq<SpecExpr>,
    k: nat,
    item: SpecValue,
    path: Seq<int>,
    whole: Seq<char>,
    st: SpecState,
    io: SpecStream,
    fuel: nat,
)
    requires
        k < more.len(),
        item matches SpecValue::Array(next) && eval_expr(
            more[k as int],
            st,
            io,
            fuel,
        ).result matches Ok(SpecValue::Int(i)) && (i < 0 || i >= next.len()),
    ensures
        raises(
            eval_path(more, k, item, path, whole, st, io, fuel).result,
            ErrorType::ArrayIndexOutOfBounds,
        ),
{
}

/// Every call of a function whose body returns a value of another type
/// than the function's return type raises `Type`, and so does every call of
/// a function of a return type other than `void` whose body returns nothing.
pub proof fn lemma_wrong_return_type(
    name: Seq<char>,
    args: Seq<SpecExpr>,
    st: SpecState,
    io: SpecStream,
    fuel: nat,
)
    requires
        st.functions.contains_key(name),
        st.functions[name].params.len() == args.len(),
        fuel > 0,
        ({
            let f = st.functions[name];
            let a = eval_exprs_from(args, 0, Seq::empty(), st, io, fuel);
            &&& a.result is Ok
            &&& match eval_block_from(
                f.body,
                0,
                bind_params(a.state.enter_scope(), f.params, a.result->Ok_0, 0),
                a.stream,
                (fuel - 1) as nat,
            ).result {
                Ok(Some(v)) => v.type_of() != f.return_type,
                Ok(None) => f.return_type != Type::Void,
                Err(_) => false,
            }
        }),
    ensures
        raises(eval_call(name, args, st, io, fuel).result, ErrorType::Type),
{
}

/// The definition of a function whose name is defined already raises
/// `RedefinedFunction` and changes nothing.
pub proof fn lemma_redefined_function(
    t: Type,
    name: Seq<char>,
    params: Seq<Seq<char>>,
    body: Seq<SpecStatement>,
    st: SpecState,
    io: SpecStream,
    fuel: nat,
)
    requires
        st.functions.contains_key(name),
    ensures
        ({
            let r = eval_stmt(SpecStatement::Defun(t, name, params, body), st, io, fuel);
            &&& raises(r.result, ErrorType::RedefinedFunction)
            &&& r.state == st
            &&& r.stream == io
        }),
{
}

/// Of two definitions of one name, one after the other, the first succeeds
/// if the name was not defined, and the second raises `RedefinedFunction`
/// in any case.
pub proof fn lemma_second_definition(
    t1: Type,
    params1: Seq<Seq<char>>,
    body1: Seq<SpecStatement>,
    t2: Type,
    params2: Seq<Seq<char>>,
    body2: Seq<SpecStatement>,
    name: Seq<char>,
    st: SpecState,
    io: SpecStream,
    fuel: nat,
)
    ensures
        ({
            let first = eval_stmt(SpecStatement::Defun(t1, name, params1, body1), st, io, fuel);
            let second = eval_stmt(
                SpecStatement::Defun(t2, name, params2, body2),
                first.state,
                first.stream,
                fuel,
            );
            &&& first.result is Ok <==> !st.functions.contains_key(name)
            &&& raises(second.result, ErrorType::RedefinedFunction)
        }),
{
}

/// Binding parameters opens and closes no scope.
pub proof fn lemma_bind_params_scopes(
    st: SpecState,
    params: Seq<Seq<char>>,
    values: Seq<SpecValue>,
    i: nat,
)
    ensures
        bind_params(st, params, values, i).locals.len() == st.locals.len(),
    decreases params.len() - i,
{
    if i < params.len() {
        lemma_bind_params_scopes(
            st.define_var(params[i as int], values[i as int]),
            params,
            values,
            i + 1,
        );
    }
}

/// Every evaluation of an expression leaves as many local scopes open as
/// it found, however it ends.
pub proof fn lemma_expr_scopes(e: SpecExpr, st: SpecState, io: SpecStream, fuel: nat)
    ensures
        eval_expr(e, st, io, fuel).state.locals.len() == st.locals.len(),
    decreases fuel, 0nat, e, 1nat,
{
    match e {
        SpecExpr::Array(items) => {
            lemma_exprs_scopes(items, 0, Seq::empty(), st, io, fuel);
        },
        SpecExpr::ArrayElement(var, first, more) => {
            lemma_element_scopes(e, st, io, fuel);
        },
        SpecExpr::BinExp(l, op, r) => {
            lemma_operands_scopes(e, st, io, fuel);
        },
        SpecExpr::Call(name, args) => {
            lemma_call_scopes(name, args, st, io, fuel);
        },
        SpecExpr::Length(x) => {
            lemma_expr_scopes(*x, st, io, fuel);
        },
        SpecExpr::Letters(x) => {
            lemma_expr_scopes(*x, st, io, fuel);
        },
        SpecExpr::Not(x) => {
            lemma_expr_scopes(*x, st, io, fuel);
        },
        SpecExpr::Range(a, b) => {
            lemma_operands_scopes(e, st, io, fuel);
        },
        SpecExpr::Step(a, b, c) => {
            lemma_operands_scopes(e, st, io, fuel);
        },
        _ => {},
    }
}

/// Every indexing of a variable leaves as many local scopes open as it
/// found.
pub proof fn lemma_element_scopes(e: SpecExpr, st: SpecState, io: SpecStream, fuel: nat)
    requires
        e is ArrayElement,
    ensures
        eval_expr(e, st, io, fuel).state.locals.len() == st.locals.len(),
    decreases fuel, 0nat, e, 0nat,
{
    match e {
        SpecExpr::ArrayElement(var, first, more) => {
            match st.lookup(var) {
                Some(SpecValue::Array(root)) => {
                    lemma_expr_scopes(*first, st, io, fuel);
                    let r = eval_expr(*first, st, io, fuel);
                    match r.result {
                        Ok(v) => match check_index(v, root.len()) {
                            Ok(i) => {
                                lemma_path_scopes(
                                    more,
                                    0,
                                    root[i],
                                    seq![i],
                                    expr_text(e),
                                    r.state,
                                    r.stream,
                                    fuel,
                                );
                            },
                            Err(_) => {},
                        },
                        Err(_) => {},
                    }
                },
                _ => {},
            }
        },
        _ => {},
    }
}

/// Every evaluation of a binary expression, of a range or of a `step`
/// leaves as many local scopes open as it found.
pub proof fn lemma_operands_scopes(e: SpecExpr, st: SpecState, io: SpecStream, fuel: nat)
    requires
        e is BinExp || e is Range || e is Step,
    ensures
        eval_expr(e, st, io, fuel).state.locals.len() == st.locals.len(),
    decreases fuel, 0nat, e, 0nat,
{
    match e {
        SpecExpr::BinExp(l, op, r) => {
            lemma_expr_scopes(*l, st, io, fuel);
            let r1 = eval_expr(*l, st, io, fuel);
            lemma_expr_scopes(*r, r1.state, r1.stream, fuel);
        },
        SpecExpr::Range(a, b) => {
            lemma_expr_scopes(*a, st, io, fuel);
            let r1 = eval_expr(*a, st, io, fuel);
            lemma_expr_scopes(*b, r1.state, r1.stream, fuel);
        },
        SpecExpr::Step(a, b, c) => {
            lemma_expr_scopes(*a, st, io, fuel);
            let r1 = eval_expr(*a, st, io, fuel);
            lemma_expr_scopes(*b, r1.state, r1.stream, fuel);
            let r2 = eval_expr(*b, r1.state, r1.stream, fuel);
            lemma_expr_scopes(*c, r2.state, r2.stream, fuel);
        },
        _ => {},
    }
}

/// Every evaluation of a list of expressions leaves as many local scopes
/// open as it found.
pub proof fn lemma_exprs_scopes(
    items: Seq<SpecExpr>,
    i: nat,
    done: Seq<SpecValue>,
    st: SpecState,
    io: SpecStream,
    fuel: nat,
)
    ensures
        eval_exprs_from(items, i, done, st, io, fuel).state.locals.len() == st.locals.len(),
    decreases fuel, 0nat, items, items.len() - i,
{
    if i < items.len() {
        lemma_expr_scopes(items[i as int], st, io, fuel);
        let r = eval_expr(items[i as int], st, io, fuel);
        match r.result {
            Ok(v) => {
                lemma_exprs_scopes(items, i + 1, done.push(v), r.state, r.stream, fuel);
            },
            Err(_) => {},
        }
    }
}

/// Every evaluation of a chain of indexes leaves as many local scopes open
/// as it found.
pub proof fn lemma_path_scopes(
    more: Seq<SpecExpr>,
    k: nat,
    item: SpecValue,
    path: Seq<int>,
    whole: Seq<char>,
    st: SpecState,
    io: SpecStream,
    fuel: nat,
)
    ensures
        eval_path(more, k, item, path, whole, st, io, fuel).state.locals.len() == st.locals.len(),
    decreases fuel, 0nat, more, more.len() - k,
{
    if k < more.len() {
        match item {
            SpecValue::Array(next) => {
                lemma_expr_scopes(more[k as int], st, io, fuel);
                let r = eval_expr(more[k as int], st, io, fuel);
                match r.result {
                    Ok(v) => match check_index(v, next.len()) {
                        Ok(j) => {
                            lemma_path_scopes(
                                more,
                                k + 1,
                                next[j],
                                path.push(j),
                                whole,
                                r.state,
                                r.stream,
                                fuel,
                            );
                        },
                        Err(_) => {},
                    },
                    Err(_) => {},
                }
            },
            _ => {},
        }
    }
}

/// Every call leaves as many local scopes open as it found: the scope that
/// it opens for the body is closed however the body ends.
pub proof fn lemma_call_scopes(
    name: Seq<char>,
    args: Seq<SpecExpr>,
    st: SpecState,
    io: SpecStream,
    fuel: nat,
)
    ensures
        eval_call(name, args, st, io, fuel).state.locals.len() == st.locals.len(),
    decreases fuel, 0nat, args, args.len() + 1,
{
    if st.functions.contains_key(name) {
        let f = st.functions[name];
        if f.params.len() == args.len() {
            lemma_exprs_scopes(args, 0, Seq::empty(), st, io, fuel);
            let a = eval_exprs_from(args, 0, Seq::empty(), st, io, fuel);
            match a.result {
                Ok(values) => {
                    if fuel > 0 {
                        let entered = bind_params(a.state.enter_scope(), f.params, values, 0);
                        lemma_bind_params_scopes(a.state.enter_scope(), f.params, values, 0);
                        lemma_block_scopes(f.body, 0, entered, a.stream, (fuel - 1) as nat);
                    }
                },
                Err(_) => {},
            }
        }
    }
}

/// Every evaluation of a statement leaves as many local scopes open as it
/// found, however it ends.
#[verifier::rlimit(20)]
pub proof fn lemma_stmt_scopes(s: SpecStatement, st: SpecState, io: SpecStream, fuel: nat)
    ensures
        eval_stmt(s, st, io, fuel).state.locals.len() == st.locals.len(),
    decreases fuel, 1nat, s, 0nat,
{
    let whole = strip_newline(
        stmt_text(s, Seq::empty()),
    );
    match s {
        SpecStatement::ArrayElemAssign(var, first, more, e) => {
            match st.lookup(var) {
                Some(SpecValue::Array(root)) => {
                    lemma_expr_scopes(first, st, io, fuel);
                    let r = eval_expr(first, st, io, fuel);
                    match r.result {
                        Ok(v) => match check_index(v, root.len()) {
                            Ok(i) => {
                                lemma_path_scopes(
                                    more,
                                    0,
                                    root[i],
                                    seq![i],
                                    whole,
                                    r.state,
                                    r.stream,
                                    fuel,
                                );
                                let p = eval_path(
                                    more,
                                    0,
                                    root[i],
                                    seq![i],
                                    whole,
                                    r.state,
                                    r.stream,
                                    fuel,
                                );
                                lemma_expr_scopes(e, p.state, p.stream, fuel);
                            },
                            Err(_) => {},
                        },
                        Err(_) => {},
                    }
                },
                _ => {},
            }
        },
        SpecStatement::Delete(var, first, more) => {
            match st.lookup(var) {
                Some(SpecValue::Array(root)) => {
                    lemma_expr_scopes(first, st, io, fuel);
                    let r = eval_expr(first, st, io, fuel);
                    match r.result {
                        Ok(v) => match check_index(v, root.len()) {
                            Ok(i) => {
                                lemma_path_scopes(
                                    more,
                                    0,
                                    root[i],
                                    seq![i],
                                    whole,
                                    r.state,
                                    r.stream,
                                    fuel,
                                );
                            },
                            Err(_) => {},
                        },
                        Err(_) => {},
                    }
                },
                _ => {},
            }
        },
        SpecStatement::Defun(t, name, params, body) => {},
        SpecStatement::For(var, e, block) => {
            lemma_expr_scopes(e, st, io, fuel);
            let r = eval_expr(e, st, io, fuel);
            match r.result {
                Ok(SpecValue::Array(items)) => {
                    lemma_for_scopes(var, items, 0, block, r.state, r.stream, fuel);
                },
                _ => {},
            }
        },
        SpecStatement::If(c, block1, block2) => {
            lemma_expr_scopes(c, st, io, fuel);
            let r = eval_expr(c, st, io, fuel);
            lemma_block_scopes(block1, 0, r.state, r.stream, fuel);
            lemma_block_scopes(block2, 0, r.state, r.stream, fuel);
        },
        SpecStatement::Let(var, e) => {
            lemma_expr_scopes(e, st, io, fuel);
        },
        SpecStatement::Print(e) => {
            lemma_expr_scopes(e, st, io, fuel);
        },
        SpecStatement::PrintLine(e) => {
            lemma_expr_scopes(e, st, io, fuel);
        },
        SpecStatement::Return(e) => {
            lemma_expr_scopes(e, st, io, fuel);
        },
        SpecStatement::VarAssign(var, e) => {
            lemma_expr_scopes(e, st, io, fuel);
        },
        SpecStatement::VoidCall(name, args) => {
            lemma_call_scopes(name, args, st, io, fuel);
        },
        SpecStatement::While(c, block) => {
            lemma_expr_scopes(c, st, io, fuel);
            let r = eval_expr(c, st, io, fuel);
            lemma_block_scopes(block, 0, r.state, r.stream, fuel);
            let b = eval_block_from(block, 0, r.state, r.stream, fuel);
            if fuel > 0 {
                lemma_stmt_scopes(s, b.state, b.stream, (fuel - 1) as nat);
            }
        },
    }
}

/// Every run of a block leaves as many local scopes open as it found.
pub proof fn lemma_block_scopes(
    block: Seq<SpecStatement>,
    i: nat,
    st: SpecState,
    io: SpecStream,
    fuel: nat,
)
    ensures
        eval_block_from(block, i, st, io, fuel).state.locals.len() == st.locals.len(),
    decreases fuel, 1nat, block, block.len() - i,
{
    if i < block.len() {
        lemma_stmt_scopes(block[i as int], st, io, fuel);
        let r = eval_stmt(block[i as int], st, io, fuel);
        lemma_block_scopes(block, i + 1, r.state, r.stream, fuel);
    }
}

/// Every run of a `for` loop leaves as many local scopes open as it found.
pub proof fn lemma_for_scopes(
    var: Seq<char>,
    items: Seq<SpecValue>,
    i: nat,
    block: Seq<SpecStatement>,
    st: SpecState,
    io: SpecStream,
    fuel: nat,
)
    ensures
        eval_for_from(var, items, i, block, st, io, fuel).state.locals.len()
            == st.locals.len(),
    decreases fuel, 1nat, block, block.len() + 1 + items.len() - i,
{
    if i < items.len() {
        let bound = st.define_var(var, items[i as int]);
        lemma_block_scopes(block, 0, bound, io, fuel);
        let r = eval_block_from(block, 0, bound, io, fuel);
        lemma_for_scopes(var, items, i + 1, block, r.state, r.stream, fuel);
    }
}

/// After every run of a program, the variables of the state are those of
/// the global scope and of the local scopes that were open before the run;
/// after a run from a state with no open local scope, they are those of the
/// global scope.
pub proof fn lemma_run_scopes(
    program: Seq<SpecStatement>,
    i: nat,
    st: SpecState,
    io: SpecStream,
    fuel: nat,
)
    ensures
        ({
            let after = run_from(program, i, st, io, fuel).state;
            &&& after.locals.len() == st.locals.len()
            &&& after.len() == after.global.len() + chain_len(after.locals)
            &&& st.locals.len() == 0 ==> after.len() == after.global.len()
        }),
    decreases program.len() - i,
{
    if i < program.len() {
        lemma_stmt_scopes(program[i as int], st, io, fuel);
        let r = eval_stmt(program[i as int], st, io, fuel);
        lemma_run_scopes(program, i + 1, r.state, r.stream, fuel);
    }
    let after = run_from(program, i, st, io, fuel).state;
    if after.locals.len() == 0 {
        assert(chain_len(after.locals) == 0);
    }
}

} // verus!
