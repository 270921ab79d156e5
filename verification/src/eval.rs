//! The evaluator: a recursive walk over statements and expressions against
//! a mutable state and a mailbox.

pub mod arrays;
pub mod bin_exp;
pub mod lemmas;
pub mod messages;
pub mod order;
pub mod replay;
pub mod semantics;

use crate::ast::{
    clone_stmts, clone_strings, clone_values, exprs_view, group_ast_views, stmts_view,
    strings_view, values_view, Expr, SpecExpr, SpecStatement, SpecValue, Statement, Type, Value,
};
use crate::display::expr_text;
use crate::error::{Error, ErrorType};
use crate::eval::arrays::{
    cell_at, delete_at, index_of, lemma_path_extend, letters, numbers, path_ints, store_at,
    without_newline,
};
use crate::eval::bin_exp::binary;
use crate::eval::messages::{
    arity, cell_error, no_value, out_of_bounds, senseless, step_refused, undefined,
    unknown_function, unknown_variable, wrong_return,
};
use crate::eval::semantics::{
    bind_params, eval_block_from, eval_call, eval_expr, eval_exprs_from, eval_for_from, eval_path,
    eval_stmt, get_at, index_error, int_value, no_array_error, not_an_int_error, valid_path,
    Outcome, SpecHalt,
};
use crate::state::{SpecState, State};
use crate::stream::{SpecStream, Stream};
use vstd::pervasive::unreached;
use vstd::prelude::*;
use vstd::string::StringExecFns;

verus! {

broadcast use group_ast_views;

/// Why an evaluation stopped without a result.
#[derive(Debug)]
pub enum Halt {
    /// A runtime error of the language.
    Error(Error),
    /// A division by zero, or a number that does not fit in 64 bits.
    Arithmetic,
    /// `readline()` found no line of input waiting. The request was emitted.
    NeedsInput,
    /// The budget of loop passes and nested calls ran out.
    OutOfFuel,
}

impl View for Halt {
    type V = SpecHalt;

    open spec fn view(&self) -> SpecHalt {
        match self {
            Halt::Error(e) => SpecHalt::Error(e@),
            Halt::Arithmetic => SpecHalt::Arithmetic,
            Halt::NeedsInput => SpecHalt::NeedsInput,
            Halt::OutOfFuel => SpecHalt::OutOfFuel,
        }
    }
}

/// The model of the result of evaluating an expression.
pub open spec fn value_result(r: Result<Value, Halt>) -> Result<SpecValue, SpecHalt> {
    match r {
        Ok(v) => Ok(v@),
        Err(h) => Err(h@),
    }
}

/// The model of the result of evaluating a statement.
pub open spec fn option_result(r: Result<Option<Value>, Halt>) -> Result<
    Option<SpecValue>,
    SpecHalt,
> {
    match r {
        Ok(Some(v)) => Ok(Some(v@)),
        Ok(None) => Ok(None),
        Err(h) => Err(h@),
    }
}

/// The model of the result of evaluating a list of expressions.
pub open spec fn values_result(r: Result<Vec<Value>, Halt>) -> Result<Seq<SpecValue>, SpecHalt> {
    match r {
        Ok(values) => Ok(values_view(values@)),
        Err(h) => Err(h@),
    }
}

/// The model of the result of following a chain of indexes into `root`.
pub open spec fn path_result(r: Result<Vec<usize>, Halt>, root: Seq<SpecValue>) -> Result<
    (Seq<int>, SpecValue),
    SpecHalt,
> {
    match r {
        Ok(path) => Ok((path_ints(path@), get_at(root, path_ints(path@)))),
        Err(h) => Err(h@),
    }
}

/// The outcome with the given parts.
pub open spec fn outcome<T>(
    result: Result<T, SpecHalt>,
    state: SpecState,
    stream: SpecStream,
) -> Outcome<T> {
    Outcome { result, state, stream }
}

/// Whether an evaluation of the expression `e` from `st0` and `io0` gave
/// `result` and left `st` and `io`, as `eval_expr` says; the open local
/// scopes are as many as before.
pub open spec fn expr_evaluated(
    e: SpecExpr,
    st0: SpecState,
    io0: SpecStream,
    fuel: nat,
    result: Result<SpecValue, SpecHalt>,
    st: SpecState,
    io: SpecStream,
) -> bool {
    &&& eval_expr(e, st0, io0, fuel) == outcome(result, st, io)
    &&& st.locals.len() == st0.locals.len()
}

/// Whether an evaluation of the statement `s` from `st0` and `io0` gave
/// `result` and left `st` and `io`, as `eval_stmt` says; the open local
/// scopes are as many as before.
pub open spec fn stmt_evaluated(
    s: SpecStatement,
    st0: SpecState,
    io0: SpecStream,
    fuel: nat,
    result: Result<Option<SpecValue>, SpecHalt>,
    st: SpecState,
    io: SpecStream,
) -> bool {
    &&& eval_stmt(s, st0, io0, fuel) == outcome(result, st, io)
    &&& st.locals.len() == st0.locals.len()
}

/// The halt for a runtime error.
fn raise<T>(e: Error) -> (r: Result<T, Halt>)
    ensures
        r == Err::<T, Halt>(Halt::Error(e)),
{
    Err(Halt::Error(e))
}

/// The count `n` as a value.
fn count_value(n: usize) -> (r: Result<Value, Halt>)
    ensures
        value_result(r) == int_value(n as int),
{
    if n as u64 > i64::MAX as u64 {
        Err(Halt::Arithmetic)
    } else {
        Ok(Value::Int(n as i64))
    }
}

/// The halt for a value `v` that is no index into an array of `len` items.
fn bad_index<T>(v: &Value, len: usize, index: &Expr, whole: &str) -> (r: Result<T, Halt>)
    ensures
        r matches Err(h) && h@ == SpecHalt::Error(
            index_error(v@, len as nat, expr_text(index@), whole@),
        ),
{
    let index_text = index.to_string();
    match v {
        Value::Int(i) => raise(out_of_bounds(index_text.as_str(), *i, len, whole)),
        _ => raise(
            senseless(
                ErrorType::Type,
                index_text.as_str(),
                v.type_string_with_article(),
                whole,
            ),
        ),
    }
}

/// The array bound to `var`, for the expression or statement `whole` that
/// indexes it.
fn array_of(var: &str, whole: &str, state: &State) -> (r: Result<Vec<Value>, Halt>)
    ensures
        match state@.lookup(var@) {
            Some(SpecValue::Array(root)) => r matches Ok(v) && values_view(v@) == root,
            other => r matches Err(h) && h@ == SpecHalt::Error(
                no_array_error(var@, other, whole@),
            ),
        },
{
    match state.lookup(var) {
        Some(Value::Array(vec)) => Ok(clone_values(vec)),
        Some(val) => raise(
            senseless(ErrorType::Type, var, val.type_string_with_article(), whole),
        ),
        None => raise(undefined(var, whole)),
    }
}

/// Evaluates the expressions from left to right, up to the first that halts.
#[verifier::loop_isolation(false)]
pub fn eval_exprs(items: &Vec<Expr>, state: &mut State, stream: &mut Stream, fuel: u64) -> (r:
    Result<Vec<Value>, Halt>)
    ensures
        eval_exprs_from(exprs_view(items@), 0, Seq::empty(), old(state)@, old(stream)@, fuel as nat)
            == outcome(values_result(r), final(state)@, final(stream)@),
        final(state)@.locals.len() == old(state)@.locals.len(),
        r matches Ok(values) ==> values.len() == items.len(),
    decreases fuel, 0nat, items@, 0nat,
{
    let ghost model = exprs_view(items@);
    let ghost st0 = state@;
    let ghost io0 = stream@;
    let mut out: Vec<Value> = Vec::new();
    let mut i: usize = 0;
    assert(values_view(out@) =~= Seq::<SpecValue>::empty());
    while i < items.len()
        invariant
            i <= items.len(),
            model == exprs_view(items@),
            eval_exprs_from(model, 0, Seq::empty(), st0, io0, fuel as nat) == eval_exprs_from(
                model,
                i as nat,
                values_view(out@),
                state@,
                stream@,
                fuel as nat,
            ),
            state@.locals.len() == st0.locals.len(),
            out.len() == i,
        decreases items.len() - i,
    {
        let ghost before = values_view(out@);
        match items[i].eval(state, stream, fuel) {
            Ok(v) => {
                out.push(v);
                assert(values_view(out@) =~= before.push(v@));
            },
            Err(h) => {
                return Err(h);
            },
        }
        i += 1;
    }
    Ok(out)
}

/// Follows the index expressions `more` from the cell `root[first]`: each is
/// evaluated once the cell before it was found to be an array, and checked
/// against that array. Gives the whole path.
#[verifier::loop_isolation(false)]
pub fn eval_indexes(
    more: &Vec<Expr>,
    root: &Vec<Value>,
    first: usize,
    whole: &str,
    state: &mut State,
    stream: &mut Stream,
    fuel: u64,
) -> (r: Result<Vec<usize>, Halt>)
    requires
        first < root.len(),
    ensures
        eval_path(
            exprs_view(more@),
            0,
            values_view(root@)[first as int],
            seq![first as int],
            whole@,
            old(state)@,
            old(stream)@,
            fuel as nat,
        ) == outcome(path_result(r, values_view(root@)), final(state)@, final(stream)@),
        r matches Ok(path) ==> valid_path(values_view(root@), path_ints(path@)),
        final(state)@.locals.len() == old(state)@.locals.len(),
    decreases fuel, 0nat, more@, 0nat,
{
    let ghost model = exprs_view(more@);
    let ghost cells = values_view(root@);
    let ghost st0 = state@;
    let ghost io0 = stream@;
    let mut path: Vec<usize> = Vec::new();
    path.push(first);
    let mut item: &Value = &root[first];
    let mut k: usize = 0;
    proof {
        assert(path_ints(path@) =~= seq![first as int]);
    }
    while k < more.len()
        invariant
            k <= more.len(),
            model == exprs_view(more@),
            cells == values_view(root@),
            valid_path(cells, path_ints(path@)),
            item@ == get_at(cells, path_ints(path@)),
            eval_path(
                model,
                0,
                cells[first as int],
                seq![first as int],
                whole@,
                st0,
                io0,
                fuel as nat,
            ) == eval_path(
                model,
                k as nat,
                item@,
                path_ints(path@),
                whole@,
                state@,
                stream@,
                fuel as nat,
            ),
            state@.locals.len() == st0.locals.len(),
        decreases more.len() - k,
    {
        let next: &Vec<Value> = match item {
            Value::Array(next) => next,
            other => {
                return raise(cell_error(other.type_string_with_article(), whole));
            },
        };
        assert(item@ == SpecValue::Array(values_view(next@)));
        let v = match more[k].eval(state, stream, fuel) {
            Ok(v) => v,
            Err(h) => {
                return Err(h);
            },
        };
        let j = match index_of(&v, next.len()) {
            Ok(j) => j,
            Err(_) => {
                return bad_index(&v, next.len(), &more[k], whole);
            },
        };
        proof {
            lemma_path_extend(cells, path_ints(path@), j as int);
            assert(path_ints(path@.push(j)) =~= path_ints(path@).push(j as int));
        }
        item = &next[j];
        path.push(j);
        k += 1;
    }
    Ok(path)
}

impl Expr {
    /// Evaluates the expression against `state`, with `stream` for its input
    /// and output. `fuel` bounds the passes of each loop and the depth of
    /// nested calls.
    pub fn eval(&self, state: &mut State, stream: &mut Stream, fuel: u64) -> (r: Result<
        Value,
        Halt,
    >)
        ensures
            expr_evaluated(
                self@,
                old(state)@,
                old(stream)@,
                fuel as nat,
                value_result(r),
                final(state)@,
                final(stream)@,
            ),
        decreases fuel, 0nat, self, 1nat,
    {
        match self {
            Expr::Array(vec) => {
                match eval_exprs(vec, state, stream, fuel) {
                    Ok(out) => Ok(Value::Array(out)),
                    Err(h) => Err(h),
                }
            },
            Expr::ArrayElement(_, _, _) => self.eval_array_element(state, stream, fuel),
            Expr::BinExp(_, _, _) => self.eval_binary(state, stream, fuel),
            Expr::Call(_, _) => self.eval_call(state, stream, fuel),
            Expr::Length(_) => self.eval_length(state, stream, fuel),
            Expr::Letters(_) => self.eval_letters(state, stream, fuel),
            Expr::Not(_) => self.eval_not(state, stream, fuel),
            Expr::Range(_, _) => self.eval_range(state, stream, fuel),
            Expr::ReadLine => {
                match stream.read_input() {
                    Some(line) => Ok(Value::Str(without_newline(line))),
                    None => Err(Halt::NeedsInput),
                }
            },
            Expr::Step(_, _, _) => self.eval_step(state, stream, fuel),
            Expr::Value(val) => Ok(val.clone()),
            Expr::Var(var) => {
                match state.lookup(var.as_str()) {
                    Some(val) => Ok(val.clone()),
                    None => raise(unknown_variable(var.as_str())),
                }
            },
        }
    }

    /// Evaluates the indexing of a variable.
    fn eval_array_element(&self, state: &mut State, stream: &mut Stream, fuel: u64) -> (r: Result<
        Value,
        Halt,
    >)
        requires
            self is ArrayElement,
        ensures
            expr_evaluated(
                self@,
                old(state)@,
                old(stream)@,
                fuel as nat,
                value_result(r),
                final(state)@,
                final(stream)@,
            ),
        decreases fuel, 0nat, self, 0nat,
    {
        match self {
            Expr::ArrayElement(var, index, indexes) => {
                let whole = self.to_string();
                let root = match array_of(var.as_str(), whole.as_str(), state) {
                    Ok(root) => root,
                    Err(h) => {
                        return Err(h);
                    },
                };
                let index_val = match index.eval(state, stream, fuel) {
                    Ok(v) => v,
                    Err(h) => {
                        return Err(h);
                    },
                };
                let first = match index_of(&index_val, root.len()) {
                    Ok(i) => i,
                    Err(_) => {
                        return bad_index(&index_val, root.len(), index, whole.as_str());
                    },
                };
                let path = match eval_indexes(
                    indexes,
                    &root,
                    first,
                    whole.as_str(),
                    state,
                    stream,
                    fuel,
                ) {
                    Ok(path) => path,
                    Err(h) => {
                        return Err(h);
                    },
                };
                Ok(cell_at(&root, &path).clone())
            },
            _ => unreached(),
        }
    }

    /// Evaluates both operands, the left one first, then applies the operator.
    fn eval_binary(&self, state: &mut State, stream: &mut Stream, fuel: u64) -> (r: Result<
        Value,
        Halt,
    >)
        requires
            self is BinExp,
        ensures
            expr_evaluated(
                self@,
                old(state)@,
                old(stream)@,
                fuel as nat,
                value_result(r),
                final(state)@,
                final(stream)@,
            ),
        decreases fuel, 0nat, self, 0nat,
    {
        match self {
            Expr::BinExp(exp1, op, exp2) => {
                let val1 = match exp1.eval(state, stream, fuel) {
                    Ok(v) => v,
                    Err(h) => {
                        return Err(h);
                    },
                };
                let val2 = match exp2.eval(state, stream, fuel) {
                    Ok(v) => v,
                    Err(h) => {
                        return Err(h);
                    },
                };
                binary(self, *op, val1, val2)
            },
            _ => unreached(),
        }
    }

    /// Evaluates a call that must give a value.
    fn eval_call(&self, state: &mut State, stream: &mut Stream, fuel: u64) -> (r: Result<
        Value,
        Halt,
    >)
        requires
            self is Call,
        ensures
            expr_evaluated(
                self@,
                old(state)@,
                old(stream)@,
                fuel as nat,
                value_result(r),
                final(state)@,
                final(stream)@,
            ),
        decreases fuel, 0nat, self, 0nat,
    {
        match self {
            Expr::Call(name, args) => {
                match state.call_function(name.as_str(), args, stream, fuel) {
                    Ok(Some(val)) => Ok(val),
                    Ok(None) => raise(no_value(name.as_str(), self.to_string().as_str())),
                    Err(e) => Err(e),
                }
            },
            _ => unreached(),
        }
    }

    /// Evaluates `length`: the items of an array, or the bytes of a string.
    fn eval_length(&self, state: &mut State, stream: &mut Stream, fuel: u64) -> (r: Result<
        Value,
        Halt,
    >)
        requires
            self is Length,
        ensures
            expr_evaluated(
                self@,
                old(state)@,
                old(stream)@,
                fuel as nat,
                value_result(r),
                final(state)@,
                final(stream)@,
            ),
        decreases fuel, 0nat, self, 0nat,
    {
        match self {
            Expr::Length(exp) => {
                let val = match exp.eval(state, stream, fuel) {
                    Ok(v) => v,
                    Err(h) => {
                        return Err(h);
                    },
                };
                match &val {
                    Value::Array(vec) => {
                        assert(val@ == SpecValue::Array(values_view(vec@)));
                        count_value(vec.len())
                    },
                    Value::Str(string) => count_value(string.as_str().as_bytes().len()),
                    _ => raise(
                        senseless(
                            ErrorType::Type,
                            exp.to_string().as_str(),
                            val.type_string_with_article(),
                            self.to_string().as_str(),
                        ),
                    ),
                }
            },
            _ => unreached(),
        }
    }

    /// Evaluates `letters`.
    fn eval_letters(&self, state: &mut State, stream: &mut Stream, fuel: u64) -> (r: Result<
        Value,
        Halt,
    >)
        requires
            self is Letters,
        ensures
            expr_evaluated(
                self@,
                old(state)@,
                old(stream)@,
                fuel as nat,
                value_result(r),
                final(state)@,
                final(stream)@,
            ),
        decreases fuel, 0nat, self, 0nat,
    {
        match self {
            Expr::Letters(exp) => {
                let val = match exp.eval(state, stream, fuel) {
                    Ok(v) => v,
                    Err(h) => {
                        return Err(h);
                    },
                };
                match &val {
                    Value::Str(string) => Ok(Value::Array(letters(string.as_str()))),
                    _ => raise(
                        senseless(
                            ErrorType::Type,
                            exp.to_string().as_str(),
                            val.type_string_with_article(),
                            self.to_string().as_str(),
                        ),
                    ),
                }
            },
            _ => unreached(),
        }
    }

    /// Evaluates a negation.
    fn eval_not(&self, state: &mut State, stream: &mut Stream, fuel: u64) -> (r: Result<
        Value,
        Halt,
    >)
        requires
            self is Not,
        ensures
            expr_evaluated(
                self@,
                old(state)@,
                old(stream)@,
                fuel as nat,
                value_result(r),
                final(state)@,
                final(stream)@,
            ),
        decreases fuel, 0nat, self, 0nat,
    {
        match self {
            Expr::Not(exp) => {
                match exp.eval(state, stream, fuel) {
                    Ok(Value::Bool(b)) => Ok(Value::Bool(!b)),
                    Ok(_) => raise(
                        senseless(
                            ErrorType::Type,
                            exp.to_string().as_str(),
                            "not a boolean",
                            self.to_string().as_str(),
                        ),
                    ),
                    Err(h) => Err(h),
                }
            },
            _ => unreached(),
        }
    }

    /// Evaluates `range`.
    fn eval_range(&self, state: &mut State, stream: &mut Stream, fuel: u64) -> (r: Result<
        Value,
        Halt,
    >)
        requires
            self is Range,
        ensures
            expr_evaluated(
                self@,
                old(state)@,
                old(stream)@,
                fuel as nat,
                value_result(r),
                final(state)@,
                final(stream)@,
            ),
        decreases fuel, 0nat, self, 0nat,
    {
        match self {
            Expr::Range(start, end) => {
                let start_int = match start.eval(state, stream, fuel) {
                    Ok(Value::Int(i)) => i,
                    Ok(_) => {
                        return self.not_an_int(start);
                    },
                    Err(h) => {
                        return Err(h);
                    },
                };
                let end_int = match end.eval(state, stream, fuel) {
                    Ok(Value::Int(i)) => i,
                    Ok(_) => {
                        return self.not_an_int(end);
                    },
                    Err(h) => {
                        return Err(h);
                    },
                };
                let step_int: i64 = if start_int <= end_int {
                    1
                } else {
                    -1
                };
                Ok(Value::Array(numbers(start_int, end_int, step_int)))
            },
            _ => unreached(),
        }
    }

    /// Evaluates `step`.
    fn eval_step(&self, state: &mut State, stream: &mut Stream, fuel: u64) -> (r: Result<
        Value,
        Halt,
    >)
        requires
            self is Step,
        ensures
            expr_evaluated(
                self@,
                old(state)@,
                old(stream)@,
                fuel as nat,
                value_result(r),
                final(state)@,
                final(stream)@,
            ),
        decreases fuel, 0nat, self, 0nat,
    {
        match self {
            Expr::Step(start, end, step) => {
                let start_int = match start.eval(state, stream, fuel) {
                    Ok(Value::Int(i)) => i,
                    Ok(_) => {
                        return self.not_an_int(start);
                    },
                    Err(h) => {
                        return Err(h);
                    },
                };
                let end_int = match end.eval(state, stream, fuel) {
                    Ok(Value::Int(i)) => i,
                    Ok(_) => {
                        return self.not_an_int(end);
                    },
                    Err(h) => {
                        return Err(h);
                    },
                };
                let step_int = match step.eval(state, stream, fuel) {
                    Ok(Value::Int(i)) => i,
                    Ok(_) => {
                        return self.not_an_int(step);
                    },
                    Err(h) => {
                        return Err(h);
                    },
                };
                if start_int < end_int && step_int < 0 {
                    return raise(
                        step_refused(
                            self.to_string().as_str(),
                            start_int,
                            end_int,
                            step_int,
                            "stepping down will never reach the end",
                        ),
                    );
                }
                if start_int > end_int && step_int > 0 {
                    return raise(
                        step_refused(
                            self.to_string().as_str(),
                            start_int,
                            end_int,
                            step_int,
                            "stepping up will never reach the end",
                        ),
                    );
                }
                if step_int == 0 {
                    return raise(
                        step_refused(
                            self.to_string().as_str(),
                            start_int,
                            end_int,
                            step_int,
                            "stepping by 0 will never get anywhere",
                        ),
                    );
                }
                Ok(Value::Array(numbers(start_int, end_int, step_int)))
            },
            _ => unreached(),
        }
    }

    /// The type error for an argument `arg` of this `range` or `step` that
    /// is no integer.
    fn not_an_int<T>(&self, arg: &Expr) -> (r: Result<T, Halt>)
        ensures
            r matches Err(h) && h@ == SpecHalt::Error(not_an_int_error(arg@, self@)),
    {
        raise(
            senseless(
                ErrorType::Type,
                arg.to_string().as_str(),
                "not an int",
                self.to_string().as_str(),
            ),
        )
    }
}

/// Runs the statements of a block in order, up to the first `return` that
/// fires or the first halt.
#[verifier::loop_isolation(false)]
pub fn eval_block(block: &Vec<Statement>, state: &mut State, stream: &mut Stream, fuel: u64) -> (r:
    Result<Option<Value>, Halt>)
    ensures
        eval_block_from(stmts_view(block@), 0, old(state)@, old(stream)@, fuel as nat) == outcome(
            option_result(r),
            final(state)@,
            final(stream)@,
        ),
        final(state)@.locals.len() == old(state)@.locals.len(),
    decreases fuel, 1nat, block@, 0nat,
{
    let ghost model = stmts_view(block@);
    let ghost st0 = state@;
    let ghost io0 = stream@;
    let mut i: usize = 0;
    while i < block.len()
        invariant
            i <= block.len(),
            model == stmts_view(block@),
            eval_block_from(model, 0, st0, io0, fuel as nat) == eval_block_from(
                model,
                i as nat,
                state@,
                stream@,
                fuel as nat,
            ),
            state@.locals.len() == st0.locals.len(),
        decreases block.len() - i,
    {
        match block[i].eval(state, stream, fuel) {
            Ok(Some(v)) => {
                return Ok(Some(v));
            },
            Ok(None) => {},
            Err(h) => {
                return Err(h);
            },
        }
        i += 1;
    }
    Ok(None)
}

/// The result of an assignment as the result of a statement.
fn assigned(r: Result<(), Error>) -> (out: Result<Option<Value>, Halt>)
    ensures
        match r {
            Ok(_) => out == Ok::<Option<Value>, Halt>(None),
            Err(e) => out == Err::<Option<Value>, Halt>(Halt::Error(e)),
        },
{
    match r {
        Ok(_) => Ok(None),
        Err(e) => Err(Halt::Error(e)),
    }
}

impl Statement {
    /// Evaluates the statement against `state`, with `stream` for its input
    /// and output. `Some(v)` where a `return` fired with the value `v`.
    /// `fuel` bounds the passes of each loop and the depth of nested calls.
    #[verifier::rlimit(20)]
    pub fn eval(&self, state: &mut State, stream: &mut Stream, fuel: u64) -> (r: Result<
        Option<Value>,
        Halt,
    >)
        ensures
            stmt_evaluated(
                self@,
                old(state)@,
                old(stream)@,
                fuel as nat,
                option_result(r),
                final(state)@,
                final(stream)@,
            ),
        decreases fuel, 1nat, self, 1nat,
    {
        match self {
            Statement::ArrayElemAssign(_, _, _, _) => self.eval_array_elem_assign(
                state,
                stream,
                fuel,
            ),
            Statement::Delete(_, _, _) => self.eval_delete(state, stream, fuel),
            Statement::Defun(t, name, params, body) => assigned(
                state.define_func(t, name.as_str(), params.as_slice(), body.as_slice()),
            ),
            Statement::For(_, _, _) => self.eval_for(state, stream, fuel),
            Statement::If(_, _, _) => self.eval_if(state, stream, fuel),
            Statement::Let(var, exp) => {
                let val = match exp.eval(state, stream, fuel) {
                    Ok(v) => v,
                    Err(h) => {
                        return Err(h);
                    },
                };
                state.define_var(var.as_str(), val);
                Ok(None)
            },
            Statement::Print(exp) => {
                let val = match exp.eval(state, stream, fuel) {
                    Ok(v) => v,
                    Err(h) => {
                        return Err(h);
                    },
                };
                stream.write_output(val.to_string().as_str());
                Ok(None)
            },
            Statement::PrintLine(exp) => {
                let val = match exp.eval(state, stream, fuel) {
                    Ok(v) => v,
                    Err(h) => {
                        return Err(h);
                    },
                };
                stream.write_output(val.to_string().concat("\n").as_str());
                Ok(None)
            },
            Statement::Return(exp) => {
                match exp.eval(state, stream, fuel) {
                    Ok(v) => Ok(Some(v)),
                    Err(h) => Err(h),
                }
            },
            Statement::VarAssign(var, exp) => {
                let val = match exp.eval(state, stream, fuel) {
                    Ok(v) => v,
                    Err(h) => {
                        return Err(h);
                    },
                };
                assigned(state.assign(var.as_str(), val))
            },
            Statement::VoidCall(name, args) => {
                match state.call_function(name.as_str(), args, stream, fuel) {
                    Ok(_) => Ok(None),
                    Err(h) => Err(h),
                }
            },
            Statement::While(_, _) => self.eval_while(state, stream, fuel),
        }
    }

    /// Replaces the cell of an array that a chain of indexes leads to, and
    /// writes the whole array back to its variable.
    #[verifier::loop_isolation(false)]
    fn eval_array_elem_assign(&self, state: &mut State, stream: &mut Stream, fuel: u64) -> (r: Result<
        Option<Value>,
        Halt,
    >)
        requires
            self is ArrayElemAssign,
        ensures
            stmt_evaluated(
                self@,
                old(state)@,
                old(stream)@,
                fuel as nat,
                option_result(r),
                final(state)@,
                final(stream)@,
            ),
        decreases fuel, 1nat, self, 0nat,
    {
        match self {
            Statement::ArrayElemAssign(var, index, indexes, exp) => {
                let whole = without_newline(self.to_string());
                let mut root = match array_of(var.as_str(), whole.as_str(), state) {
                    Ok(root) => root,
                    Err(h) => {
                        return Err(h);
                    },
                };
                let index_val = match index.eval(state, stream, fuel) {
                    Ok(v) => v,
                    Err(h) => {
                        return Err(h);
                    },
                };
                let first = match index_of(&index_val, root.len()) {
                    Ok(i) => i,
                    Err(_) => {
                        return bad_index(&index_val, root.len(), index, whole.as_str());
                    },
                };
                let path = match eval_indexes(
                    indexes,
                    &root,
                    first,
                    whole.as_str(),
                    state,
                    stream,
                    fuel,
                ) {
                    Ok(path) => path,
                    Err(h) => {
                        return Err(h);
                    },
                };
                let exp_val = match exp.eval(state, stream, fuel) {
                    Ok(v) => v,
                    Err(h) => {
                        return Err(h);
                    },
                };
                proof {
                    assert(path_ints(path@).skip(0) =~= path_ints(path@));
                }
                store_at(&mut root, &path, 0, exp_val);
                assigned(state.assign(var.as_str(), Value::Array(root)))
            },
            _ => unreached(),
        }
    }

    /// Removes the cell of an array that a chain of indexes leads to, and
    /// writes the whole array back to its variable.
    #[verifier::loop_isolation(false)]
    fn eval_delete(&self, state: &mut State, stream: &mut Stream, fuel: u64) -> (r: Result<
        Option<Value>,
        Halt,
    >)
        requires
            self is Delete,
        ensures
            stmt_evaluated(
                self@,
                old(state)@,
                old(stream)@,
                fuel as nat,
                option_result(r),
                final(state)@,
                final(stream)@,
            ),
        decreases fuel, 1nat, self, 0nat,
    {
        match self {
            Statement::Delete(var, index, indexes) => {
                let whole = without_newline(self.to_string());
                let mut root = match array_of(var.as_str(), whole.as_str(), state) {
                    Ok(root) => root,
                    Err(h) => {
                        return Err(h);
                    },
                };
                let index_val = match index.eval(state, stream, fuel) {
                    Ok(v) => v,
                    Err(h) => {
                        return Err(h);
                    },
                };
                let first = match index_of(&index_val, root.len()) {
                    Ok(i) => i,
                    Err(_) => {
                        return bad_index(&index_val, root.len(), index, whole.as_str());
                    },
                };
                let path = match eval_indexes(
                    indexes,
                    &root,
                    first,
                    whole.as_str(),
                    state,
                    stream,
                    fuel,
                ) {
                    Ok(path) => path,
                    Err(h) => {
                        return Err(h);
                    },
                };
                proof {
                    assert(path_ints(path@).skip(0) =~= path_ints(path@));
                }
                delete_at(&mut root, &path, 0);
                assigned(state.assign(var.as_str(), Value::Array(root)))
            },
            _ => unreached(),
        }
    }

    /// Runs the block once for each item of an array.
    #[verifier::loop_isolation(false)]
    fn eval_for(&self, state: &mut State, stream: &mut Stream, fuel: u64) -> (r: Result<
        Option<Value>,
        Halt,
    >)
        requires
            self is For,
        ensures
            stmt_evaluated(
                self@,
                old(state)@,
                old(stream)@,
                fuel as nat,
                option_result(r),
                final(state)@,
                final(stream)@,
            ),
        decreases fuel, 1nat, self, 0nat,
    {
        match self {
            Statement::For(var, exp, block) => {
                let vec = match exp.eval(state, stream, fuel) {
                    Ok(Value::Array(vec)) => vec,
                    Ok(val) => {
                        let text = exp.to_string();
                        let construct = String::from_str("for ").concat(var.as_str()).concat(
                            " in ",
                        ).concat(text.as_str()).concat(" ...");
                        return raise(
                            senseless(
                                ErrorType::Type,
                                text.as_str(),
                                val.type_string_with_article(),
                                construct.as_str(),
                            ),
                        );
                    },
                    Err(h) => {
                        return Err(h);
                    },
                };
                let ghost items = values_view(vec@);
                let ghost model = stmts_view(block@);
                let ghost st1 = state@;
                let ghost io1 = stream@;
                let mut i: usize = 0;
                while i < vec.len()
                    invariant
                        i <= vec.len(),
                        eval_for_from(var@, items, 0, model, st1, io1, fuel as nat)
                            == eval_for_from(
                            var@,
                            items,
                            i as nat,
                            model,
                            state@,
                            stream@,
                            fuel as nat,
                        ),
                        state@.locals.len() == st1.locals.len(),
                    decreases vec.len() - i,
                {
                    state.define_var(var.as_str(), vec[i].clone());
                    match eval_block(block, state, stream, fuel) {
                        Ok(Some(v)) => {
                            return Ok(Some(v));
                        },
                        Ok(None) => {},
                        Err(h) => {
                            return Err(h);
                        },
                    }
                    i += 1;
                }
                Ok(None)
            },
            _ => unreached(),
        }
    }

    /// Runs one of two blocks.
    #[verifier::loop_isolation(false)]
    fn eval_if(&self, state: &mut State, stream: &mut Stream, fuel: u64) -> (r: Result<
        Option<Value>,
        Halt,
    >)
        requires
            self is If,
        ensures
            stmt_evaluated(
                self@,
                old(state)@,
                old(stream)@,
                fuel as nat,
                option_result(r),
                final(state)@,
                final(stream)@,
            ),
        decreases fuel, 1nat, self, 0nat,
    {
        match self {
            Statement::If(exp, block1, block2) => {
                let block = match exp.eval(state, stream, fuel) {
                    Ok(Value::Bool(true)) => block1,
                    Ok(Value::Bool(false)) => block2,
                    Ok(val) => {
                        let text = exp.to_string();
                        let construct = String::from_str("if (").concat(text.as_str()).concat(
                            ") ...",
                        );
                        return raise(
                            senseless(
                                ErrorType::Type,
                                text.as_str(),
                                val.type_string_with_article(),
                                construct.as_str(),
                            ),
                        );
                    },
                    Err(h) => {
                        return Err(h);
                    },
                };
                eval_block(block, state, stream, fuel)
            },
            _ => unreached(),
        }
    }

    /// Runs the block as long as the condition holds.
    #[verifier::loop_isolation(false)]
    fn eval_while(&self, state: &mut State, stream: &mut Stream, fuel: u64) -> (r: Result<
        Option<Value>,
        Halt,
    >)
        requires
            self is While,
        ensures
            stmt_evaluated(
                self@,
                old(state)@,
                old(stream)@,
                fuel as nat,
                option_result(r),
                final(state)@,
                final(stream)@,
            ),
        decreases fuel, 1nat, self, 0nat,
    {
        match self {
            Statement::While(exp, block) => {
                let ghost st0 = state@;
                let ghost io0 = stream@;
                let mut remaining = fuel;
                loop
                    invariant
                        remaining <= fuel,
                        eval_stmt(self@, st0, io0, fuel as nat) == eval_stmt(
                            self@,
                            state@,
                            stream@,
                            remaining as nat,
                        ),
                        state@.locals.len() == st0.locals.len(),
                    decreases remaining,
                {
                    match exp.eval(state, stream, remaining) {
                        Ok(Value::Bool(true)) => {},
                        Ok(Value::Bool(false)) => {
                            return Ok(None);
                        },
                        Ok(val) => {
                            let text = exp.to_string();
                            let construct = String::from_str("while (").concat(
                                text.as_str(),
                            ).concat(") ...");
                            return raise(
                                senseless(
                                    ErrorType::Type,
                                    text.as_str(),
                                    val.type_string_with_article(),
                                    construct.as_str(),
                                ),
                            );
                        },
                        Err(h) => {
                            return Err(h);
                        },
                    }
                    match eval_block(block, state, stream, remaining) {
                        Ok(Some(v)) => {
                            return Ok(Some(v));
                        },
                        Ok(None) => {},
                        Err(h) => {
                            return Err(h);
                        },
                    }
                    if remaining == 0 {
                        return Err(Halt::OutOfFuel);
                    }
                    remaining -= 1;
                }
            },
            _ => unreached(),
        }
    }

}

impl State {
    /// Evaluates a function given its name and arguments.
    ///
    /// The arguments are evaluated in the caller's scope. The body runs in a
    /// new scope, which is closed again on every path.
    #[verifier::loop_isolation(false)]
    pub fn call_function(
        &mut self,
        name: &str,
        args: &Vec<Expr>,
        stream: &mut Stream,
        fuel: u64,
    ) -> (r: Result<Option<Value>, Halt>)
        ensures
            eval_call(name@, exprs_view(args@), old(self)@, old(stream)@, fuel as nat) == outcome(
                option_result(r),
                final(self)@,
                final(stream)@,
            ),
            final(self)@.locals.len() == old(self)@.locals.len(),
        decreases fuel, 0nat, args@, args@.len() + 1,
    {
        // Look up the function
        let (return_type, params, body) = match self.function(name) {
            Some(f) => (f.return_type, clone_strings(&f.params), clone_stmts(&f.body)),
            None => {
                return raise(unknown_function(name));
            },
        };
        // Check that the correct number of arguments is given
        if params.len() != args.len() {
            return raise(arity(name, params.len(), args.len()));
        }
        // Evaluate the arguments
        let arg_values = match eval_exprs(args, self, stream, fuel) {
            Ok(values) => values,
            Err(h) => {
                return Err(h);
            },
        };
        if fuel == 0 {
            return Err(Halt::OutOfFuel);
        }
        let ghost f = old(self)@.functions[name@];
        let ghost values = values_view(arg_values@);
        let ghost after_args = self@;
        self.enter_scope();
        // Assign the argument values to the parameters
        let mut i: usize = 0;
        while i < params.len()
            invariant
                i <= params.len(),
                params.len() == arg_values.len(),
                values == values_view(arg_values@),
                f.params == strings_view(params@),
                bind_params(after_args.enter_scope(), f.params, values, 0) == bind_params(
                    self@,
                    f.params,
                    values,
                    i as nat,
                ),
                self@.locals.len() == old(self)@.locals.len() + 1,
            decreases params.len() - i,
        {
            self.define_var(params[i].as_str(), arg_values[i].clone());
            i += 1;
        }
        // Evaluate the function body
        let result = eval_block(&body, self, stream, fuel - 1);
        self.exit_scope();
        match result {
            Ok(Some(val)) => {
                // Verify that the returned value matches the return type of the function
                if val.is_a(&return_type) {
                    Ok(Some(val))
                } else {
                    raise(wrong_return(name, return_type, val.type_string_with_article()))
                }
            },
            Ok(None) => {
                // Verify that functions with a non-void return type have returned a value.
                if return_type != Type::Void {
                    raise(wrong_return(name, return_type, "nothing"))
                } else {
                    Ok(None)
                }
            },
            Err(h) => Err(h),
        }
    }
}

} // verus!
