//! What more input does to an evaluation: nothing, unless the evaluation
//! halted for want of input; and then the events it emitted are the first of
//! those that it emits with more input.

use crate::ast::{SpecExpr, SpecStatement, SpecValue};
use crate::display::{expr_text, stmt_text};
use crate::eval::order::{
    follows, lemma_block_order, lemma_expr_order, lemma_exprs_order, lemma_follows_emit,
    lemma_follows_itself, lemma_follows_on, lemma_for_order, lemma_path_order, lemma_stmt_order,
};
use crate::eval::semantics::{
    bind_params, check_index, eval_block_from, eval_call, eval_expr, eval_exprs_from,
    eval_for_from, eval_path, eval_stmt, strip_newline, Outcome, SpecHalt,
};
use crate::state::SpecState;
use crate::stream::{SpecEvent, SpecStream};
use vstd::prelude::*;

verus! {

/// Whether the events `all` begin with the events `first`.
#[verifier::opaque]
pub open spec fn begins(all: Seq<SpecEvent>, first: Seq<SpecEvent>) -> bool {
    first.len() <= all.len() && all.take(first.len() as int) == first
}

/// The mailbox `io` with the lines `extra` supplied behind those that wait.
pub open spec fn with_more(io: SpecStream, extra: Seq<Seq<char>>) -> SpecStream {
    SpecStream { inputs: io.inputs + extra, events: io.events }
}

/// Whether `b` is what the evaluation that gave `a` gives with the lines
/// `extra` supplied behind those it had. If `a` halted for want of input,
/// the events of `b` begin with those of `a`. If not, `b` is `a` with the
/// lines `extra` left over.
pub open spec fn replayed<T>(a: Outcome<T>, b: Outcome<T>, extra: Seq<Seq<char>>) -> bool {
    if a.result == Err::<T, SpecHalt>(SpecHalt::NeedsInput) {
        begins(b.stream.events, a.stream.events)
    } else {
        b == (Outcome { stream: with_more(a.stream, extra), ..a })
    }
}

/// Events begin with themselves.
pub proof fn lemma_begins_itself(a: Seq<SpecEvent>)
    ensures
        begins(a, a),
{
    reveal(begins);
    assert(a.take(a.len() as int) =~= a);
}

/// What begins with events that begin with others begins with those others.
pub proof fn lemma_begins_on(a: Seq<SpecEvent>, b: Seq<SpecEvent>, c: Seq<SpecEvent>)
    requires
        begins(b, a),
        begins(c, b),
    ensures
        begins(c, a),
{
    reveal(begins);
    assert(c.take(a.len() as int) =~= b.take(a.len() as int));
}

/// Events with more behind them begin with themselves.
pub proof fn lemma_begins_more(a: Seq<SpecEvent>, more: Seq<SpecEvent>)
    ensures
        begins(a + more, a),
{
    reveal(begins);
    assert((a + more).take(a.len() as int) =~= a);
}

/// The events of a mailbox that follows another begin with the events of
/// that other.
pub proof fn lemma_follows_begins(before: SpecStream, after: SpecStream)
    requires
        follows(before, after),
    ensures
        begins(after.events, before.events),
{
    reveal(begins);
    reveal(follows);
}

/// Where an evaluation halted for want of input, and with more input went
/// on to the mailbox `after`, the events of `after` begin with those of the
/// halt.
pub proof fn lemma_waits_then<T>(
    a: Outcome<T>,
    b: Outcome<T>,
    extra: Seq<Seq<char>>,
    after: SpecStream,
)
    requires
        replayed(a, b, extra),
        a.result == Err::<T, SpecHalt>(SpecHalt::NeedsInput),
        follows(b.stream, after),
    ensures
        begins(after.events, a.stream.events),
{
    lemma_follows_begins(b.stream, after);
    lemma_begins_on(a.stream.events, b.stream.events, after.events);
}

/// More input does to the evaluation of an expression what `replayed` says.
pub proof fn lemma_expr_replay(
    e: SpecExpr,
    st: SpecState,
    io: SpecStream,
    extra: Seq<Seq<char>>,
    fuel: nat,
)
    ensures
        replayed(eval_expr(e, st, io, fuel), eval_expr(e, st, with_more(io, extra), fuel), extra),
    decreases fuel, 0nat, e, 1nat,
{
    lemma_begins_itself(eval_expr(e, st, io, fuel).stream.events);
    match e {
        SpecExpr::Array(items) => {
            lemma_exprs_replay(items, 0, Seq::empty(), st, io, extra, fuel);
        },
        SpecExpr::ArrayElement(var, first, more) => {
            lemma_element_replay(e, st, io, extra, fuel);
        },
        SpecExpr::BinExp(l, op, r) => {
            lemma_binary_replay(e, st, io, extra, fuel);
        },
        SpecExpr::Call(name, args) => {
            lemma_call_replay(name, args, st, io, extra, fuel);
        },
        SpecExpr::Length(x) => {
            lemma_unary_replay(e, st, io, extra, fuel);
        },
        SpecExpr::Letters(x) => {
            lemma_unary_replay(e, st, io, extra, fuel);
        },
        SpecExpr::Not(x) => {
            lemma_unary_replay(e, st, io, extra, fuel);
        },
        SpecExpr::Range(a, b) => {
            lemma_binary_replay(e, st, io, extra, fuel);
        },
        SpecExpr::ReadLine => {
            lemma_atom_replay(e, st, io, extra, fuel);
        },
        SpecExpr::Step(a, b, c) => {
            lemma_step_replay(e, st, io, extra, fuel);
        },
        SpecExpr::Value(v) => {
            lemma_atom_replay(e, st, io, extra, fuel);
        },
        SpecExpr::Var(name) => {
            lemma_atom_replay(e, st, io, extra, fuel);
        },
    }
}

/// More input does to `readline()`, to a literal and to a variable what
/// `replayed` says.
pub proof fn lemma_atom_replay(
    e: SpecExpr,
    st: SpecState,
    io: SpecStream,
    extra: Seq<Seq<char>>,
    fuel: nat,
)
    requires
        e is ReadLine || e is Value || e is Var,
    ensures
        replayed(eval_expr(e, st, io, fuel), eval_expr(e, st, with_more(io, extra), fuel), extra),
{
    let io2 = with_more(io, extra);
    lemma_begins_itself(eval_expr(e, st, io, fuel).stream.events);
    if e is ReadLine && io.inputs.len() > 0 {
        assert(io2.inputs.drop_first() =~= io.inputs.drop_first() + extra);
        assert(io2.inputs[0] == io.inputs[0]);
    }
}

/// More input does to a negation, to `length(..)` and to `letters(..)`
/// what `replayed` says.
pub proof fn lemma_unary_replay(
    e: SpecExpr,
    st: SpecState,
    io: SpecStream,
    extra: Seq<Seq<char>>,
    fuel: nat,
)
    requires
        e is Length || e is Letters || e is Not,
    ensures
        replayed(eval_expr(e, st, io, fuel), eval_expr(e, st, with_more(io, extra), fuel), extra),
    decreases fuel, 0nat, e, 0nat,
{
    lemma_begins_itself(eval_expr(e, st, io, fuel).stream.events);
    match e {
        SpecExpr::Length(x) => {
            lemma_expr_replay(*x, st, io, extra, fuel);
        },
        SpecExpr::Letters(x) => {
            lemma_expr_replay(*x, st, io, extra, fuel);
        },
        SpecExpr::Not(x) => {
            lemma_expr_replay(*x, st, io, extra, fuel);
        },
        _ => {},
    }
}

/// More input does to an indexing of a variable what `replayed` says.
pub proof fn lemma_element_replay(
    e: SpecExpr,
    st: SpecState,
    io: SpecStream,
    extra: Seq<Seq<char>>,
    fuel: nat,
)
    requires
        e is ArrayElement,
    ensures
        replayed(eval_expr(e, st, io, fuel), eval_expr(e, st, with_more(io, extra), fuel), extra),
    decreases fuel, 0nat, e, 0nat,
{
    let io2 = with_more(io, extra);
    let w1 = eval_expr(e, st, io, fuel);
    let w2 = eval_expr(e, st, io2, fuel);
    lemma_begins_itself(w1.stream.events);
    match e {
        SpecExpr::ArrayElement(var, first, more) => {
            match st.lookup(var) {
                Some(SpecValue::Array(root)) => {
                    lemma_expr_replay(*first, st, io, extra, fuel);
                    let a1 = eval_expr(*first, st, io, fuel);
                    let a2 = eval_expr(*first, st, io2, fuel);
                    if a1.result == Err::<SpecValue, SpecHalt>(SpecHalt::NeedsInput) {
                        lemma_follows_itself(a2.stream);
                        match a2.result {
                            Ok(v) => match check_index(v, root.len()) {
                                Ok(i) => {
                                    lemma_path_order(
                                        more,
                                        0,
                                        root[i],
                                        seq![i],
                                        expr_text(e),
                                        a2.state,
                                        a2.stream,
                                        fuel,
                                    );
                                },
                                Err(_) => {},
                            },
                            Err(_) => {},
                        }
                        lemma_waits_then(a1, a2, extra, w2.stream);
                    } else {
                        match a1.result {
                            Ok(v) => match check_index(v, root.len()) {
                                Ok(i) => {
                                    lemma_path_replay(
                                        more,
                                        0,
                                        root[i],
                                        seq![i],
                                        expr_text(e),
                                        a1.state,
                                        a1.stream,
                                        extra,
                                        fuel,
                                    );
                                },
                                Err(_) => {},
                            },
                            Err(_) => {},
                        }
                    }
                },
                _ => {},
            }
        },
        _ => {},
    }
}

/// More input does to the evaluation of a binary expression or of a range
/// what `replayed` says.
pub proof fn lemma_binary_replay(
    e: SpecExpr,
    st: SpecState,
    io: SpecStream,
    extra: Seq<Seq<char>>,
    fuel: nat,
)
    requires
        e is BinExp || e is Range,
    ensures
        replayed(eval_expr(e, st, io, fuel), eval_expr(e, st, with_more(io, extra), fuel), extra),
    decreases fuel, 0nat, e, 0nat,
{
    let io2 = with_more(io, extra);
    let w1 = eval_expr(e, st, io, fuel);
    let w2 = eval_expr(e, st, io2, fuel);
    lemma_begins_itself(w1.stream.events);
    let (l, r) = match e {
        SpecExpr::BinExp(l, op, r) => (*l, *r),
        SpecExpr::Range(a, b) => (*a, *b),
        _ => (e, e),
    };
    lemma_expr_replay(l, st, io, extra, fuel);
    let a1 = eval_expr(l, st, io, fuel);
    let a2 = eval_expr(l, st, io2, fuel);
    if a1.result == Err::<SpecValue, SpecHalt>(SpecHalt::NeedsInput) {
        lemma_follows_itself(a2.stream);
        lemma_expr_order(r, a2.state, a2.stream, fuel);
        lemma_waits_then(a1, a2, extra, w2.stream);
    } else {
        lemma_expr_replay(r, a1.state, a1.stream, extra, fuel);
    }
}

/// More input does to the evaluation of a `step` what `replayed` says.
pub proof fn lemma_step_replay(
    e: SpecExpr,
    st: SpecState,
    io: SpecStream,
    extra: Seq<Seq<char>>,
    fuel: nat,
)
    requires
        e is Step,
    ensures
        replayed(eval_expr(e, st, io, fuel), eval_expr(e, st, with_more(io, extra), fuel), extra),
    decreases fuel, 0nat, e, 0nat,
{
    let io2 = with_more(io, extra);
    let w1 = eval_expr(e, st, io, fuel);
    let w2 = eval_expr(e, st, io2, fuel);
    lemma_begins_itself(w1.stream.events);
    match e {
        SpecExpr::Step(a, b, c) => {
            lemma_expr_replay(*a, st, io, extra, fuel);
            let a1 = eval_expr(*a, st, io, fuel);
            let a2 = eval_expr(*a, st, io2, fuel);
            if a1.result == Err::<SpecValue, SpecHalt>(SpecHalt::NeedsInput) {
                lemma_step_order_after(e, a2.state, a2.stream, fuel);
                lemma_step_goes_on(e, st, io2, fuel);
                lemma_waits_then(a1, a2, extra, w2.stream);
            } else if a1.result is Ok && a1.result->Ok_0 is Int {
                lemma_expr_replay(*b, a1.state, a1.stream, extra, fuel);
                let b1 = eval_expr(*b, a1.state, a1.stream, fuel);
                let b2 = eval_expr(*b, a1.state, with_more(a1.stream, extra), fuel);
                if b1.result == Err::<SpecValue, SpecHalt>(SpecHalt::NeedsInput) {
                    lemma_follows_itself(b2.stream);
                    lemma_expr_order(*c, b2.state, b2.stream, fuel);
                    lemma_waits_then(b1, b2, extra, w2.stream);
                } else {
                    lemma_expr_replay(*c, b1.state, b1.stream, extra, fuel);
                }
            }
        },
        _ => {},
    }
}

/// The mailbox after the end and the step of a `step` were evaluated,
/// where they were, follows the mailbox from which they were.
pub proof fn lemma_step_order_after(e: SpecExpr, st: SpecState, io: SpecStream, fuel: nat)
    requires
        e is Step,
    ensures
        ({
            let b2 = eval_expr(*e->Step_1, st, io, fuel);
            let c2 = eval_expr(*e->Step_2, b2.state, b2.stream, fuel);
            follows(io, io) && follows(io, b2.stream) && follows(io, c2.stream)
        }),
{
    lemma_follows_itself(io);
    lemma_expr_order(*e->Step_1, st, io, fuel);
    let b2 = eval_expr(*e->Step_1, st, io, fuel);
    lemma_expr_order(*e->Step_2, b2.state, b2.stream, fuel);
    let c2 = eval_expr(*e->Step_2, b2.state, b2.stream, fuel);
    lemma_follows_on(io, b2.stream, c2.stream);
}

/// The mailbox that the evaluation of a `step` leaves is the one that the
/// last of its parts to be evaluated left.
pub proof fn lemma_step_goes_on(e: SpecExpr, st: SpecState, io: SpecStream, fuel: nat)
    requires
        e is Step,
    ensures
        ({
            let a = eval_expr(*e->Step_0, st, io, fuel);
            let b = eval_expr(*e->Step_1, a.state, a.stream, fuel);
            let c = eval_expr(*e->Step_2, b.state, b.stream, fuel);
            let w = eval_expr(e, st, io, fuel).stream;
            w == a.stream || w == b.stream || w == c.stream
        }),
{
}

/// More input does to the evaluation of a list of expressions what
/// `replayed` says.
pub proof fn lemma_exprs_replay(
    items: Seq<SpecExpr>,
    i: nat,
    done: Seq<SpecValue>,
    st: SpecState,
    io: SpecStream,
    extra: Seq<Seq<char>>,
    fuel: nat,
)
    ensures
        replayed(
            eval_exprs_from(items, i, done, st, io, fuel),
            eval_exprs_from(items, i, done, st, with_more(io, extra), fuel),
            extra,
        ),
    decreases fuel, 0nat, items, items.len() - i,
{
    let io2 = with_more(io, extra);
    let w1 = eval_exprs_from(items, i, done, st, io, fuel);
    let w2 = eval_exprs_from(items, i, done, st, io2, fuel);
    lemma_begins_itself(w1.stream.events);
    if i < items.len() {
        lemma_expr_replay(items[i as int], st, io, extra, fuel);
        let a1 = eval_expr(items[i as int], st, io, fuel);
        let a2 = eval_expr(items[i as int], st, io2, fuel);
        if a1.result == Err::<SpecValue, SpecHalt>(SpecHalt::NeedsInput) {
            lemma_follows_itself(a2.stream);
            match a2.result {
                Ok(v) => {
                    lemma_exprs_order(items, i + 1, done.push(v), a2.state, a2.stream, fuel);
                },
                Err(_) => {},
            }
            lemma_waits_then(a1, a2, extra, w2.stream);
        } else {
            match a1.result {
                Ok(v) => {
                    lemma_exprs_replay(items, i + 1, done.push(v), a1.state, a1.stream, extra, fuel);
                },
                Err(_) => {},
            }
        }
    }
}

/// More input does to the evaluation of a chain of indexes what `replayed`
/// says.
pub proof fn lemma_path_replay(
    more: Seq<SpecExpr>,
    k: nat,
    item: SpecValue,
    path: Seq<int>,
    whole: Seq<char>,
    st: SpecState,
    io: SpecStream,
    extra: Seq<Seq<char>>,
    fuel: nat,
)
    ensures
        replayed(
            eval_path(more, k, item, path, whole, st, io, fuel),
            eval_path(more, k, item, path, whole, st, with_more(io, extra), fuel),
            extra,
        ),
    decreases fuel, 0nat, more, more.len() - k,
{
    let io2 = with_more(io, extra);
    let w1 = eval_path(more, k, item, path, whole, st, io, fuel);
    let w2 = eval_path(more, k, item, path, whole, st, io2, fuel);
    lemma_begins_itself(w1.stream.events);
    if k < more.len() {
        match item {
            SpecValue::Array(next) => {
                lemma_expr_replay(more[k as int], st, io, extra, fuel);
                let a1 = eval_expr(more[k as int], st, io, fuel);
                let a2 = eval_expr(more[k as int], st, io2, fuel);
                if a1.result == Err::<SpecValue, SpecHalt>(SpecHalt::NeedsInput) {
                    lemma_follows_itself(a2.stream);
                    match a2.result {
                        Ok(v) => match check_index(v, next.len()) {
                            Ok(j) => {
                                lemma_path_order(
                                    more,
                                    k + 1,
                                    next[j],
                                    path.push(j),
                                    whole,
                                    a2.state,
                                    a2.stream,
                                    fuel,
                                );
                            },
                            Err(_) => {},
                        },
                        Err(_) => {},
                    }
                    lemma_waits_then(a1, a2, extra, w2.stream);
                } else {
                    match a1.result {
                        Ok(v) => match check_index(v, next.len()) {
                            Ok(j) => {
                                lemma_path_replay(
                                    more,
                                    k + 1,
                                    next[j],
                                    path.push(j),
                                    whole,
                                    a1.state,
                                    a1.stream,
                                    extra,
                                    fuel,
                                );
                            },
                            Err(_) => {},
                        },
                        Err(_) => {},
                    }
                }
            },
            _ => {},
        }
    }
}

/// More input does to a call what `replayed` says.
pub proof fn lemma_call_replay(
    name: Seq<char>,
    args: Seq<SpecExpr>,
    st: SpecState,
    io: SpecStream,
    extra: Seq<Seq<char>>,
    fuel: nat,
)
    ensures
        replayed(
            eval_call(name, args, st, io, fuel),
            eval_call(name, args, st, with_more(io, extra), fuel),
            extra,
        ),
    decreases fuel, 0nat, args, args.len() + 1,
{
    let io2 = with_more(io, extra);
    let w1 = eval_call(name, args, st, io, fuel);
    let w2 = eval_call(name, args, st, io2, fuel);
    lemma_begins_itself(w1.stream.events);
    if st.functions.contains_key(name) {
        let f = st.functions[name];
        if f.params.len() == args.len() {
            lemma_exprs_replay(args, 0, Seq::empty(), st, io, extra, fuel);
            let a1 = eval_exprs_from(args, 0, Seq::empty(), st, io, fuel);
            let a2 = eval_exprs_from(args, 0, Seq::empty(), st, io2, fuel);
            if a1.result == Err::<Seq<SpecValue>, SpecHalt>(SpecHalt::NeedsInput) {
                lemma_follows_itself(a2.stream);
                match a2.result {
                    Ok(values) => {
                        if fuel > 0 {
                            let entered = bind_params(a2.state.enter_scope(), f.params, values, 0);
                            lemma_block_order(f.body, 0, entered, a2.stream, (fuel - 1) as nat);
                        }
                    },
                    Err(_) => {},
                }
                lemma_waits_then(a1, a2, extra, w2.stream);
            } else {
                match a1.result {
                    Ok(values) => {
                        if fuel > 0 {
                            let entered = bind_params(a1.state.enter_scope(), f.params, values, 0);
                            lemma_block_replay(
                                f.body,
                                0,
                                entered,
                                a1.stream,
                                extra,
                                (fuel - 1) as nat,
                            );
                        }
                    },
                    Err(_) => {},
                }
            }
        }
    }
}

/// More input does to the evaluation of a statement what `replayed` says.
pub proof fn lemma_stmt_replay(
    s: SpecStatement,
    st: SpecState,
    io: SpecStream,
    extra: Seq<Seq<char>>,
    fuel: nat,
)
    ensures
        replayed(eval_stmt(s, st, io, fuel), eval_stmt(s, st, with_more(io, extra), fuel), extra),
    decreases fuel, 1nat, s, 1nat,
{
    lemma_begins_itself(eval_stmt(s, st, io, fuel).stream.events);
    match s {
        SpecStatement::ArrayElemAssign(var, first, more, e) => {
            lemma_cell_replay(s, st, io, extra, fuel);
        },
        SpecStatement::Delete(var, first, more) => {
            lemma_cell_replay(s, st, io, extra, fuel);
        },
        SpecStatement::Defun(t, name, params, body) => {},
        SpecStatement::For(var, e, block) => {
            lemma_loop_replay(s, st, io, extra, fuel);
        },
        SpecStatement::If(c, block1, block2) => {
            lemma_if_replay(s, st, io, extra, fuel);
        },
        SpecStatement::Let(var, e) => {
            lemma_binding_replay(s, st, io, extra, fuel);
        },
        SpecStatement::Print(e) => {
            lemma_print_replay(s, st, io, extra, fuel);
        },
        SpecStatement::PrintLine(e) => {
            lemma_print_replay(s, st, io, extra, fuel);
        },
        SpecStatement::Return(e) => {
            lemma_binding_replay(s, st, io, extra, fuel);
        },
        SpecStatement::VarAssign(var, e) => {
            lemma_binding_replay(s, st, io, extra, fuel);
        },
        SpecStatement::VoidCall(name, args) => {
            lemma_void_call_replay(s, st, io, extra, fuel);
        },
        SpecStatement::While(c, block) => {
            lemma_while_replay(s, st, io, extra, fuel);
        },
    }
}

/// More input does to a `let`, an assignment to a variable and a `return`
/// what `replayed` says.
pub proof fn lemma_binding_replay(
    s: SpecStatement,
    st: SpecState,
    io: SpecStream,
    extra: Seq<Seq<char>>,
    fuel: nat,
)
    requires
        s is Let || s is VarAssign || s is Return,
    ensures
        replayed(eval_stmt(s, st, io, fuel), eval_stmt(s, st, with_more(io, extra), fuel), extra),
    decreases fuel, 1nat, s, 0nat,
{
    lemma_begins_itself(eval_stmt(s, st, io, fuel).stream.events);
    match s {
        SpecStatement::Let(var, e) => {
            lemma_expr_replay(e, st, io, extra, fuel);
        },
        SpecStatement::Return(e) => {
            lemma_expr_replay(e, st, io, extra, fuel);
        },
        SpecStatement::VarAssign(var, e) => {
            lemma_expr_replay(e, st, io, extra, fuel);
        },
        _ => {},
    }
}

/// More input does to a `print` and to a `print_line` what `replayed` says.
pub proof fn lemma_print_replay(
    s: SpecStatement,
    st: SpecState,
    io: SpecStream,
    extra: Seq<Seq<char>>,
    fuel: nat,
)
    requires
        s is Print || s is PrintLine,
    ensures
        replayed(eval_stmt(s, st, io, fuel), eval_stmt(s, st, with_more(io, extra), fuel), extra),
    decreases fuel, 1nat, s, 0nat,
{
    let io2 = with_more(io, extra);
    let w1 = eval_stmt(s, st, io, fuel);
    let w2 = eval_stmt(s, st, io2, fuel);
    lemma_begins_itself(w1.stream.events);
    let e = match s {
        SpecStatement::Print(e) => e,
        SpecStatement::PrintLine(e) => e,
        _ => SpecExpr::ReadLine,
    };
    lemma_expr_replay(e, st, io, extra, fuel);
    let a1 = eval_expr(e, st, io, fuel);
    let a2 = eval_expr(e, st, io2, fuel);
    if a1.result == Err::<SpecValue, SpecHalt>(SpecHalt::NeedsInput) {
        lemma_follows_itself(a2.stream);
        if a2.result is Ok {
            lemma_follows_emit(a2.stream, w2.stream.events.last());
        }
        lemma_waits_then(a1, a2, extra, w2.stream);
    }
}

/// More input does to a call that is a statement what `replayed` says.
pub proof fn lemma_void_call_replay(
    s: SpecStatement,
    st: SpecState,
    io: SpecStream,
    extra: Seq<Seq<char>>,
    fuel: nat,
)
    requires
        s is VoidCall,
    ensures
        replayed(eval_stmt(s, st, io, fuel), eval_stmt(s, st, with_more(io, extra), fuel), extra),
    decreases fuel, 1nat, s, 0nat,
{
    lemma_begins_itself(eval_stmt(s, st, io, fuel).stream.events);
    match s {
        SpecStatement::VoidCall(name, args) => {
            lemma_call_replay(name, args, st, io, extra, fuel);
        },
        _ => {},
    }
}

/// More input does to an assignment to a cell of an array, and to a
/// deletion of one, what `replayed` says.
pub proof fn lemma_cell_replay(
    s: SpecStatement,
    st: SpecState,
    io: SpecStream,
    extra: Seq<Seq<char>>,
    fuel: nat,
)
    requires
        s is ArrayElemAssign || s is Delete,
    ensures
        replayed(eval_stmt(s, st, io, fuel), eval_stmt(s, st, with_more(io, extra), fuel), extra),
    decreases fuel, 1nat, s, 0nat,
{
    let io2 = with_more(io, extra);
    let w1 = eval_stmt(s, st, io, fuel);
    let w2 = eval_stmt(s, st, io2, fuel);
    lemma_begins_itself(w1.stream.events);
    let whole = strip_newline(stmt_text(s, Seq::empty()));
    let (var, first, more) = match s {
        SpecStatement::ArrayElemAssign(var, first, more, e) => (var, first, more),
        SpecStatement::Delete(var, first, more) => (var, first, more),
        _ => (Seq::empty(), SpecExpr::ReadLine, Seq::empty()),
    };
    match st.lookup(var) {
        Some(SpecValue::Array(root)) => {
            lemma_expr_replay(first, st, io, extra, fuel);
            let a1 = eval_expr(first, st, io, fuel);
            let a2 = eval_expr(first, st, io2, fuel);
            if a1.result == Err::<SpecValue, SpecHalt>(SpecHalt::NeedsInput) {
                lemma_follows_itself(a2.stream);
                match a2.result {
                    Ok(v) => match check_index(v, root.len()) {
                        Ok(i) => {
                            let cell = root[i];
                            lemma_path_order(more, 0, cell, seq![i], whole, a2.state, a2.stream, fuel);
                            let pb = eval_path(more, 0, cell, seq![i], whole, a2.state, a2.stream, fuel);
                            match s {
                                SpecStatement::ArrayElemAssign(_, _, _, e) => {
                                    lemma_expr_order(e, pb.state, pb.stream, fuel);
                                    let e2 = eval_expr(e, pb.state, pb.stream, fuel);
                                    lemma_follows_on(a2.stream, pb.stream, e2.stream);
                                },
                                _ => {},
                            }
                        },
                        Err(_) => {},
                    },
                    Err(_) => {},
                }
                lemma_waits_then(a1, a2, extra, w2.stream);
            } else {
                match a1.result {
                    Ok(v) => match check_index(v, root.len()) {
                        Ok(i) => {
                            let cell = root[i];
                            let io1 = a1.stream;
                            lemma_path_replay(more, 0, cell, seq![i], whole, a1.state, io1, extra, fuel);
                            let pa = eval_path(more, 0, cell, seq![i], whole, a1.state, io1, fuel);
                            let pb = eval_path(
                                more,
                                0,
                                root[i],
                                seq![i],
                                whole,
                                a1.state,
                                with_more(a1.stream, extra),
                                fuel,
                            );
                            match s {
                                SpecStatement::ArrayElemAssign(_, _, _, e) => {
                                    if pa.result == Err::<(Seq<int>, SpecValue), SpecHalt>(
                                        SpecHalt::NeedsInput,
                                    ) {
                                        lemma_follows_itself(pb.stream);
                                        lemma_expr_order(e, pb.state, pb.stream, fuel);
                                        lemma_waits_then(pa, pb, extra, w2.stream);
                                    } else {
                                        lemma_expr_replay(e, pa.state, pa.stream, extra, fuel);
                                    }
                                },
                                _ => {},
                            }
                        },
                        Err(_) => {},
                    },
                    Err(_) => {},
                }
            }
        },
        _ => {},
    }
}

/// More input does to an `if` what `replayed` says.
pub proof fn lemma_if_replay(
    s: SpecStatement,
    st: SpecState,
    io: SpecStream,
    extra: Seq<Seq<char>>,
    fuel: nat,
)
    requires
        s is If,
    ensures
        replayed(eval_stmt(s, st, io, fuel), eval_stmt(s, st, with_more(io, extra), fuel), extra),
    decreases fuel, 1nat, s, 0nat,
{
    let io2 = with_more(io, extra);
    let w1 = eval_stmt(s, st, io, fuel);
    let w2 = eval_stmt(s, st, io2, fuel);
    lemma_begins_itself(w1.stream.events);
    match s {
        SpecStatement::If(c, block1, block2) => {
            lemma_expr_replay(c, st, io, extra, fuel);
            let a1 = eval_expr(c, st, io, fuel);
            let a2 = eval_expr(c, st, io2, fuel);
            if a1.result == Err::<SpecValue, SpecHalt>(SpecHalt::NeedsInput) {
                lemma_follows_itself(a2.stream);
                lemma_block_order(block1, 0, a2.state, a2.stream, fuel);
                lemma_block_order(block2, 0, a2.state, a2.stream, fuel);
                lemma_waits_then(a1, a2, extra, w2.stream);
            } else {
                lemma_block_replay(block1, 0, a1.state, a1.stream, extra, fuel);
                lemma_block_replay(block2, 0, a1.state, a1.stream, extra, fuel);
            }
        },
        _ => {},
    }
}

/// More input does to a `for` what `replayed` says.
pub proof fn lemma_loop_replay(
    s: SpecStatement,
    st: SpecState,
    io: SpecStream,
    extra: Seq<Seq<char>>,
    fuel: nat,
)
    requires
        s is For,
    ensures
        replayed(eval_stmt(s, st, io, fuel), eval_stmt(s, st, with_more(io, extra), fuel), extra),
    decreases fuel, 1nat, s, 0nat,
{
    let io2 = with_more(io, extra);
    let w1 = eval_stmt(s, st, io, fuel);
    let w2 = eval_stmt(s, st, io2, fuel);
    lemma_begins_itself(w1.stream.events);
    match s {
        SpecStatement::For(var, e, block) => {
            lemma_expr_replay(e, st, io, extra, fuel);
            let a1 = eval_expr(e, st, io, fuel);
            let a2 = eval_expr(e, st, io2, fuel);
            if a1.result == Err::<SpecValue, SpecHalt>(SpecHalt::NeedsInput) {
                lemma_follows_itself(a2.stream);
                match a2.result {
                    Ok(SpecValue::Array(items)) => {
                        lemma_for_order(var, items, 0, block, a2.state, a2.stream, fuel);
                    },
                    _ => {},
                }
                lemma_waits_then(a1, a2, extra, w2.stream);
            } else {
                match a1.result {
                    Ok(SpecValue::Array(items)) => {
                        lemma_for_replay(var, items, 0, block, a1.state, a1.stream, extra, fuel);
                    },
                    _ => {},
                }
            }
        },
        _ => {},
    }
}

/// More input does to a `while` what `replayed` says.
pub proof fn lemma_while_replay(
    s: SpecStatement,
    st: SpecState,
    io: SpecStream,
    extra: Seq<Seq<char>>,
    fuel: nat,
)
    requires
        s is While,
    ensures
        replayed(eval_stmt(s, st, io, fuel), eval_stmt(s, st, with_more(io, extra), fuel), extra),
    decreases fuel, 1nat, s, 0nat,
{
    let io2 = with_more(io, extra);
    let w1 = eval_stmt(s, st, io, fuel);
    let w2 = eval_stmt(s, st, io2, fuel);
    lemma_begins_itself(w1.stream.events);
    match s {
        SpecStatement::While(c, block) => {
            lemma_expr_replay(c, st, io, extra, fuel);
            let a1 = eval_expr(c, st, io, fuel);
            let a2 = eval_expr(c, st, io2, fuel);
            if a1.result == Err::<SpecValue, SpecHalt>(SpecHalt::NeedsInput) {
                lemma_follows_itself(a2.stream);
                lemma_block_order(block, 0, a2.state, a2.stream, fuel);
                let b2 = eval_block_from(block, 0, a2.state, a2.stream, fuel);
                if fuel > 0 {
                    lemma_stmt_order(s, b2.state, b2.stream, (fuel - 1) as nat);
                    let again = eval_stmt(s, b2.state, b2.stream, (fuel - 1) as nat);
                    lemma_follows_on(a2.stream, b2.stream, again.stream);
                }
                lemma_waits_then(a1, a2, extra, w2.stream);
            } else if a1.result == Ok::<SpecValue, SpecHalt>(SpecValue::Bool(true)) {
                lemma_block_replay(block, 0, a1.state, a1.stream, extra, fuel);
                let b1 = eval_block_from(block, 0, a1.state, a1.stream, fuel);
                let b2 = eval_block_from(block, 0, a1.state, with_more(a1.stream, extra), fuel);
                if b1.result == Err::<Option<SpecValue>, SpecHalt>(SpecHalt::NeedsInput) {
                    lemma_follows_itself(b2.stream);
                    if fuel > 0 {
                        lemma_stmt_order(s, b2.state, b2.stream, (fuel - 1) as nat);
                    }
                    lemma_waits_then(b1, b2, extra, w2.stream);
                } else if fuel > 0 {
                    lemma_stmt_replay(s, b1.state, b1.stream, extra, (fuel - 1) as nat);
                }
            }
        },
        _ => {},
    }
}

/// More input does to the run of a block what `replayed` says.
pub proof fn lemma_block_replay(
    block: Seq<SpecStatement>,
    i: nat,
    st: SpecState,
    io: SpecStream,
    extra: Seq<Seq<char>>,
    fuel: nat,
)
    ensures
        replayed(
            eval_block_from(block, i, st, io, fuel),
            eval_block_from(block, i, st, with_more(io, extra), fuel),
            extra,
        ),
    decreases fuel, 1nat, block, block.len() - i,
{
    let io2 = with_more(io, extra);
    let w1 = eval_block_from(block, i, st, io, fuel);
    let w2 = eval_block_from(block, i, st, io2, fuel);
    lemma_begins_itself(w1.stream.events);
    if i < block.len() {
        lemma_stmt_replay(block[i as int], st, io, extra, fuel);
        let a1 = eval_stmt(block[i as int], st, io, fuel);
        let a2 = eval_stmt(block[i as int], st, io2, fuel);
        if a1.result == Err::<Option<SpecValue>, SpecHalt>(SpecHalt::NeedsInput) {
            lemma_follows_itself(a2.stream);
            lemma_block_order(block, i + 1, a2.state, a2.stream, fuel);
            lemma_waits_then(a1, a2, extra, w2.stream);
        } else {
            lemma_block_replay(block, i + 1, a1.state, a1.stream, extra, fuel);
        }
    }
}

/// More input does to the passes of a `for` loop what `replayed` says.
pub proof fn lemma_for_replay(
    var: Seq<char>,
    items: Seq<SpecValue>,
    i: nat,
    block: Seq<SpecStatement>,
    st: SpecState,
    io: SpecStream,
    extra: Seq<Seq<char>>,
    fuel: nat,
)
    ensures
        replayed(
            eval_for_from(var, items, i, block, st, io, fuel),
            eval_for_from(var, items, i, block, st, with_more(io, extra), fuel),
            extra,
        ),
    decreases fuel, 1nat, block, block.len() + 1 + items.len() - i,
{
    let io2 = with_more(io, extra);
    let w1 = eval_for_from(var, items, i, block, st, io, fuel);
    let w2 = eval_for_from(var, items, i, block, st, io2, fuel);
    lemma_begins_itself(w1.stream.events);
    if i < items.len() {
        let bound = st.define_var(var, items[i as int]);
        lemma_block_replay(block, 0, bound, io, extra, fuel);
        let a1 = eval_block_from(block, 0, bound, io, fuel);
        let a2 = eval_block_from(block, 0, bound, io2, fuel);
        if a1.result == Err::<Option<SpecValue>, SpecHalt>(SpecHalt::NeedsInput) {
            lemma_follows_itself(a2.stream);
            lemma_for_order(var, items, i + 1, block, a2.state, a2.stream, fuel);
            lemma_waits_then(a1, a2, extra, w2.stream);
        } else {
            lemma_for_replay(var, items, i + 1, block, a1.state, a1.stream, extra, fuel);
        }
    }
}

} // verus!
