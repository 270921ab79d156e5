//! What every evaluation does to the mailbox: it appends events and takes
//! lines of input from the front, and where it halts for want of input its
//! request is the last event.

use crate::ast::{BinOp, SpecExpr, SpecStatement, SpecValue};
use crate::display::{expr_text, stmt_text, value_text};
use crate::eval::semantics::{
    apply_binop, bind_params, check_index, eval_block_from, eval_call, eval_expr,
    eval_exprs_from, eval_for_from, eval_path, eval_stmt, length_value, letters_value, run_from,
    step_value, strip_newline, Outcome, SpecHalt,
};
use crate::state::SpecState;
use crate::stream::{SpecEvent, SpecStream};
use vstd::prelude::*;

verus! {

/// Whether the mailbox `after` is `before` with events appended and lines
/// of input taken from the front.
#[verifier::opaque]
pub open spec fn follows(before: SpecStream, after: SpecStream) -> bool {
    &&& before.events.len() <= after.events.len()
    &&& after.events.take(before.events.len() as int) == before.events
    &&& after.inputs.len() <= before.inputs.len()
    &&& before.inputs.skip(before.inputs.len() - after.inputs.len()) == after.inputs
}

/// Whether an evaluation that began with the mailbox `io` left its mailbox
/// in order: the mailbox follows `io`, and if the evaluation halted for want
/// of input, no line was left and its request is the last event.
pub open spec fn in_order<T>(io: SpecStream, r: Outcome<T>) -> bool {
    &&& follows(io, r.stream)
    &&& r.result == Err::<T, SpecHalt>(SpecHalt::NeedsInput) ==> r.stream.inputs.len() == 0
        && r.stream.events.len() > 0 && r.stream.events.last() == SpecEvent::NeedsInput
}

/// A mailbox follows itself.
pub proof fn lemma_follows_itself(io: SpecStream)
    ensures
        follows(io, io),
{
    reveal(follows);
    assert(io.events.take(io.events.len() as int) =~= io.events);
    assert(io.inputs.skip(0) =~= io.inputs);
}

/// What follows a mailbox that follows another follows that other.
pub proof fn lemma_follows_on(a: SpecStream, b: SpecStream, c: SpecStream)
    requires
        follows(a, b),
        follows(b, c),
    ensures
        follows(a, c),
{
    reveal(follows);
    assert(c.events.take(a.events.len() as int) =~= b.events.take(a.events.len() as int));
    assert(a.inputs.skip(a.inputs.len() - c.inputs.len()) =~= b.inputs.skip(
        b.inputs.len() - c.inputs.len(),
    ));
}

/// A mailbox with one more event follows the mailbox.
pub proof fn lemma_follows_emit(io: SpecStream, e: SpecEvent)
    ensures
        follows(io, io.emit(e)),
{
    reveal(follows);
    assert(io.emit(e).events.take(io.events.len() as int) =~= io.events);
    assert(io.inputs.skip(0) =~= io.inputs);
}

/// The mailbox after a request for input follows the mailbox.
pub proof fn lemma_follows_read(io: SpecStream)
    ensures
        follows(io, io.read_input()),
{
    reveal(follows);
    let after = io.read_input();
    assert(after.events.take(io.events.len() as int) =~= io.events);
    if io.inputs.len() > 0 {
        assert(io.inputs.skip(1) =~= io.inputs.drop_first());
    } else {
        assert(io.inputs.skip(0) =~= io.inputs);
    }
}

/// No operator halts for want of input.
pub proof fn lemma_operator_asks_nothing(e: SpecExpr, op: BinOp, v1: SpecValue, v2: SpecValue)
    ensures
        apply_binop(e, op, v1, v2) != Err::<SpecValue, SpecHalt>(SpecHalt::NeedsInput),
{
}

/// None of `length`, `letters` and `step` halts for want of input.
pub proof fn lemma_builtin_asks_nothing(
    v: SpecValue,
    arg: Seq<char>,
    whole: Seq<char>,
    a: int,
    b: int,
    s: int,
)
    ensures
        length_value(v, arg, whole) != Err::<SpecValue, SpecHalt>(SpecHalt::NeedsInput),
        letters_value(v, arg, whole) != Err::<SpecValue, SpecHalt>(SpecHalt::NeedsInput),
        step_value(whole, a, b, s) != Err::<SpecValue, SpecHalt>(SpecHalt::NeedsInput),
{
}

/// Every evaluation of an expression leaves the mailbox in order.
pub proof fn lemma_expr_order(e: SpecExpr, st: SpecState, io: SpecStream, fuel: nat)
    ensures
        in_order(io, eval_expr(e, st, io, fuel)),
    decreases fuel, 0nat, e, 1nat,
{
    lemma_follows_itself(io);
    match e {
        SpecExpr::Array(items) => {
            lemma_exprs_order(items, 0, Seq::empty(), st, io, fuel);
        },
        SpecExpr::ArrayElement(var, first, more) => {
            lemma_element_order(e, st, io, fuel);
        },
        SpecExpr::BinExp(l, op, r) => {
            lemma_binary_order(e, st, io, fuel);
        },
        SpecExpr::Call(name, args) => {
            lemma_call_order(name, args, st, io, fuel);
        },
        SpecExpr::Length(x) => {
            lemma_expr_order(*x, st, io, fuel);
            let r = eval_expr(*x, st, io, fuel);
            if r.result is Ok {
                lemma_builtin_asks_nothing(r.result->Ok_0, expr_text(*x), expr_text(e), 0, 0, 0);
            }
        },
        SpecExpr::Letters(x) => {
            lemma_expr_order(*x, st, io, fuel);
            let r = eval_expr(*x, st, io, fuel);
            if r.result is Ok {
                lemma_builtin_asks_nothing(r.result->Ok_0, expr_text(*x), expr_text(e), 0, 0, 0);
            }
        },
        SpecExpr::Not(x) => {
            lemma_expr_order(*x, st, io, fuel);
        },
        SpecExpr::Range(a, b) => {
            lemma_binary_order(e, st, io, fuel);
        },
        SpecExpr::ReadLine => {
            lemma_follows_read(io);
        },
        SpecExpr::Step(a, b, c) => {
            lemma_step_order(e, st, io, fuel);
        },
        _ => {},
    }
}

/// Every indexing of a variable leaves the mailbox in order.
pub proof fn lemma_element_order(e: SpecExpr, st: SpecState, io: SpecStream, fuel: nat)
    requires
        e is ArrayElement,
    ensures
        in_order(io, eval_expr(e, st, io, fuel)),
    decreases fuel, 0nat, e, 0nat,
{
    lemma_follows_itself(io);
    match e {
        SpecExpr::ArrayElement(var, first, more) => {
            match st.lookup(var) {
                Some(SpecValue::Array(root)) => {
                    lemma_expr_order(*first, st, io, fuel);
                    let r = eval_expr(*first, st, io, fuel);
                    match r.result {
                        Ok(v) => match check_index(v, root.len()) {
                            Ok(i) => {
                                lemma_path_order(
                                    more,
                                    0,
                                    root[i],
                                    seq![i],
                                    expr_text(e),
                                    r.state,
                                    r.stream,
                                    fuel,
                                );
                                let p = eval_path(
                                    more,
                                    0,
                                    root[i],
                                    seq![i],
                                    expr_text(e),
                                    r.state,
                                    r.stream,
                                    fuel,
                                );
                                lemma_follows_on(io, r.stream, p.stream);
                            },
                            Err(_) => {},
                        },
                        Err(_) => {},
                    }
                },
                _ => {},
            }
        },
        _ => {},
    }
}

/// Every evaluation of a binary expression or of a range leaves the mailbox
/// in order.
pub proof fn lemma_binary_order(e: SpecExpr, st: SpecState, io: SpecStream, fuel: nat)
    requires
        e is BinExp || e is Range,
    ensures
        in_order(io, eval_expr(e, st, io, fuel)),
    decreases fuel, 0nat, e, 0nat,
{
    match e {
        SpecExpr::BinExp(l, op, r) => {
            lemma_expr_order(*l, st, io, fuel);
            let r1 = eval_expr(*l, st, io, fuel);
            lemma_expr_order(*r, r1.state, r1.stream, fuel);
            let r2 = eval_expr(*r, r1.state, r1.stream, fuel);
            lemma_follows_on(io, r1.stream, r2.stream);
            if r1.result is Ok && r2.result is Ok {
                lemma_operator_asks_nothing(e, op, r1.result->Ok_0, r2.result->Ok_0);
            }
        },
        SpecExpr::Range(a, b) => {
            lemma_expr_order(*a, st, io, fuel);
            let r1 = eval_expr(*a, st, io, fuel);
            lemma_expr_order(*b, r1.state, r1.stream, fuel);
            let r2 = eval_expr(*b, r1.state, r1.stream, fuel);
            lemma_follows_on(io, r1.stream, r2.stream);
        },
        _ => {},
    }
}

/// Every evaluation of a `step` leaves the mailbox in order.
pub proof fn lemma_step_order(e: SpecExpr, st: SpecState, io: SpecStream, fuel: nat)
    requires
        e is Step,
    ensures
        in_order(io, eval_expr(e, st, io, fuel)),
    decreases fuel, 0nat, e, 0nat,
{
    match e {
        SpecExpr::Step(a, b, c) => {
            lemma_expr_order(*a, st, io, fuel);
            let r1 = eval_expr(*a, st, io, fuel);
            lemma_expr_order(*b, r1.state, r1.stream, fuel);
            let r2 = eval_expr(*b, r1.state, r1.stream, fuel);
            lemma_follows_on(io, r1.stream, r2.stream);
            lemma_expr_order(*c, r2.state, r2.stream, fuel);
            let r3 = eval_expr(*c, r2.state, r2.stream, fuel);
            lemma_follows_on(io, r2.stream, r3.stream);
            match (r1.result, r2.result, r3.result) {
                (Ok(SpecValue::Int(a)), Ok(SpecValue::Int(b)), Ok(SpecValue::Int(s))) => {
                    lemma_builtin_asks_nothing(
                        SpecValue::Int(0),
                        Seq::empty(),
                        expr_text(e),
                        a as int,
                        b as int,
                        s as int,
                    );
                },
                _ => {},
            }
        },
        _ => {},
    }
}

/// Every evaluation of a list of expressions leaves the mailbox in order.
pub proof fn lemma_exprs_order(
    items: Seq<SpecExpr>,
    i: nat,
    done: Seq<SpecValue>,
    st: SpecState,
    io: SpecStream,
    fuel: nat,
)
    ensures
        in_order(io, eval_exprs_from(items, i, done, st, io, fuel)),
    decreases fuel, 0nat, items, items.len() - i,
{
    lemma_follows_itself(io);
    if i < items.len() {
        lemma_expr_order(items[i as int], st, io, fuel);
        let r = eval_expr(items[i as int], st, io, fuel);
        match r.result {
            Ok(v) => {
                lemma_exprs_order(items, i + 1, done.push(v), r.state, r.stream, fuel);
                let rest = eval_exprs_from(items, i + 1, done.push(v), r.state, r.stream, fuel);
                lemma_follows_on(io, r.stream, rest.stream);
            },
            Err(_) => {},
        }
    }
}

/// Every evaluation of a chain of indexes leaves the mailbox in order.
pub proof fn lemma_path_order(
    more: Seq<SpecExpr>,
    k: nat,
    item: SpecValue,
    path: Seq<int>,
    whole: Seq<char>,
    st: SpecState,
    io: SpecStream,
    fuel: nat,
)
    ensures
        in_order(io, eval_path(more, k, item, path, whole, st, io, fuel)),
    decreases fuel, 0nat, more, more.len() - k,
{
    lemma_follows_itself(io);
    if k < more.len() {
        match item {
            SpecValue::Array(next) => {
                lemma_expr_order(more[k as int], st, io, fuel);
                let r = eval_expr(more[k as int], st, io, fuel);
                match r.result {
                    Ok(v) => match check_index(v, next.len()) {
                        Ok(j) => {
                            lemma_path_order(
                                more,
                                k + 1,
                                next[j],
                                path.push(j),
                                whole,
                                r.state,
                                r.stream,
                                fuel,
                            );
                            let rest = eval_path(
                                more,
                                k + 1,
                                next[j],
                                path.push(j),
                                whole,
                                r.state,
                                r.stream,
                                fuel,
                            );
                            lemma_follows_on(io, r.stream, rest.stream);
                        },
                        Err(_) => {},
                    },
                    Err(_) => {},
                }
            },
            _ => {},
        }
    }
}

/// Every call leaves the mailbox in order.
pub proof fn lemma_call_order(
    name: Seq<char>,
    args: Seq<SpecExpr>,
    st: SpecState,
    io: SpecStream,
    fuel: nat,
)
    ensures
        in_order(io, eval_call(name, args, st, io, fuel)),
    decreases fuel, 0nat, args, args.len() + 1,
{
    lemma_follows_itself(io);
    if st.functions.contains_key(name) {
        let f = st.functions[name];
        if f.params.len() == args.len() {
            lemma_exprs_order(args, 0, Seq::empty(), st, io, fuel);
            let a = eval_exprs_from(args, 0, Seq::empty(), st, io, fuel);
            match a.result {
                Ok(values) => {
                    if fuel > 0 {
                        let entered = bind_params(a.state.enter_scope(), f.params, values, 0);
                        lemma_block_order(f.body, 0, entered, a.stream, (fuel - 1) as nat);
                        let b = eval_block_from(f.body, 0, entered, a.stream, (fuel - 1) as nat);
                        lemma_follows_on(io, a.stream, b.stream);
                    }
                },
                Err(_) => {},
            }
        }
    }
}

/// Every evaluation of a statement leaves the mailbox in order.
pub proof fn lemma_stmt_order(s: SpecStatement, st: SpecState, io: SpecStream, fuel: nat)
    ensures
        in_order(io, eval_stmt(s, st, io, fuel)),
    decreases fuel, 1nat, s, 1nat,
{
    lemma_follows_itself(io);
    match s {
        SpecStatement::ArrayElemAssign(var, first, more, e) => {
            lemma_cell_order(s, st, io, fuel);
        },
        SpecStatement::Delete(var, first, more) => {
            lemma_cell_order(s, st, io, fuel);
        },
        SpecStatement::Defun(t, name, params, body) => {},
        SpecStatement::For(var, e, block) => {
            lemma_loop_order(s, st, io, fuel);
        },
        SpecStatement::If(c, block1, block2) => {
            lemma_expr_order(c, st, io, fuel);
            let r = eval_expr(c, st, io, fuel);
            lemma_block_order(block1, 0, r.state, r.stream, fuel);
            lemma_block_order(block2, 0, r.state, r.stream, fuel);
            let b1 = eval_block_from(block1, 0, r.state, r.stream, fuel);
            let b2 = eval_block_from(block2, 0, r.state, r.stream, fuel);
            lemma_follows_on(io, r.stream, b1.stream);
            lemma_follows_on(io, r.stream, b2.stream);
        },
        SpecStatement::Let(var, e) => {
            lemma_expr_order(e, st, io, fuel);
        },
        SpecStatement::Print(e) => {
            lemma_print_order(s, st, io, fuel);
        },
        SpecStatement::PrintLine(e) => {
            lemma_print_order(s, st, io, fuel);
        },
        SpecStatement::Return(e) => {
            lemma_expr_order(e, st, io, fuel);
        },
        SpecStatement::VarAssign(var, e) => {
            lemma_expr_order(e, st, io, fuel);
        },
        SpecStatement::VoidCall(name, args) => {
            lemma_call_order(name, args, st, io, fuel);
        },
        SpecStatement::While(c, block) => {
            lemma_loop_order(s, st, io, fuel);
        },
    }
}

/// Every assignment to a cell of an array, and every deletion of one,
/// leaves the mailbox in order.
pub proof fn lemma_cell_order(s: SpecStatement, st: SpecState, io: SpecStream, fuel: nat)
    requires
        s is ArrayElemAssign || s is Delete,
    ensures
        in_order(io, eval_stmt(s, st, io, fuel)),
    decreases fuel, 1nat, s, 0nat,
{
    lemma_follows_itself(io);
    let whole = strip_newline(stmt_text(s, Seq::empty()));
    let (var, first, more) = match s {
        SpecStatement::ArrayElemAssign(var, first, more, e) => (var, first, more),
        SpecStatement::Delete(var, first, more) => (var, first, more),
        _ => (Seq::empty(), SpecExpr::ReadLine, Seq::empty()),
    };
    match st.lookup(var) {
        Some(SpecValue::Array(root)) => {
            lemma_expr_order(first, st, io, fuel);
            let r = eval_expr(first, st, io, fuel);
            match r.result {
                Ok(v) => match check_index(v, root.len()) {
                    Ok(i) => {
                        lemma_path_order(more, 0, root[i], seq![i], whole, r.state, r.stream, fuel);
                        let p = eval_path(more, 0, root[i], seq![i], whole, r.state, r.stream, fuel);
                        lemma_follows_on(io, r.stream, p.stream);
                        match s {
                            SpecStatement::ArrayElemAssign(_, _, _, e) => {
                                lemma_expr_order(e, p.state, p.stream, fuel);
                                let r2 = eval_expr(e, p.state, p.stream, fuel);
                                lemma_follows_on(io, p.stream, r2.stream);
                            },
                            _ => {},
                        }
                    },
                    Err(_) => {},
                },
                Err(_) => {},
            }
        },
        _ => {},
    }
}

/// Every `print` and every `print_line` leaves the mailbox in order.
pub proof fn lemma_print_order(s: SpecStatement, st: SpecState, io: SpecStream, fuel: nat)
    requires
        s is Print || s is PrintLine,
    ensures
        in_order(io, eval_stmt(s, st, io, fuel)),
    decreases fuel, 1nat, s, 0nat,
{
    match s {
        SpecStatement::Print(e) => {
            lemma_expr_order(e, st, io, fuel);
            let r = eval_expr(e, st, io, fuel);
            match r.result {
                Ok(v) => {
                    let shown = SpecEvent::Output(value_text(v));
                    lemma_follows_emit(r.stream, shown);
                    lemma_follows_on(io, r.stream, r.stream.emit(shown));
                },
                Err(_) => {},
            }
        },
        SpecStatement::PrintLine(e) => {
            lemma_expr_order(e, st, io, fuel);
            let r = eval_expr(e, st, io, fuel);
            match r.result {
                Ok(v) => {
                    let shown = SpecEvent::Output(value_text(v) + "\n"@);
                    lemma_follows_emit(r.stream, shown);
                    lemma_follows_on(io, r.stream, r.stream.emit(shown));
                },
                Err(_) => {},
            }
        },
        _ => {},
    }
}

/// Every `for` and every `while` leaves the mailbox in order.
pub proof fn lemma_loop_order(s: SpecStatement, st: SpecState, io: SpecStream, fuel: nat)
    requires
        s is For || s is While,
    ensures
        in_order(io, eval_stmt(s, st, io, fuel)),
    decreases fuel, 1nat, s, 0nat,
{
    lemma_follows_itself(io);
    match s {
        SpecStatement::For(var, e, block) => {
            lemma_expr_order(e, st, io, fuel);
            let r = eval_expr(e, st, io, fuel);
            match r.result {
                Ok(SpecValue::Array(items)) => {
                    lemma_for_order(var, items, 0, block, r.state, r.stream, fuel);
                    let l = eval_for_from(var, items, 0, block, r.state, r.stream, fuel);
                    lemma_follows_on(io, r.stream, l.stream);
                },
                _ => {},
            }
        },
        SpecStatement::While(c, block) => {
            lemma_expr_order(c, st, io, fuel);
            let r = eval_expr(c, st, io, fuel);
            lemma_block_order(block, 0, r.state, r.stream, fuel);
            let b = eval_block_from(block, 0, r.state, r.stream, fuel);
            lemma_follows_on(io, r.stream, b.stream);
            if fuel > 0 {
                lemma_stmt_order(s, b.state, b.stream, (fuel - 1) as nat);
                let again = eval_stmt(s, b.state, b.stream, (fuel - 1) as nat);
                lemma_follows_on(io, b.stream, again.stream);
            }
        },
        _ => {},
    }
}

/// Every run of a block leaves the mailbox in order.
pub proof fn lemma_block_order(
    block: Seq<SpecStatement>,
    i: nat,
    st: SpecState,
    io: SpecStream,
    fuel: nat,
)
    ensures
        in_order(io, eval_block_from(block, i, st, io, fuel)),
    decreases fuel, 1nat, block, block.len() - i,
{
    lemma_follows_itself(io);
    if i < block.len() {
        lemma_stmt_order(block[i as int], st, io, fuel);
        let r = eval_stmt(block[i as int], st, io, fuel);
        lemma_block_order(block, i + 1, r.state, r.stream, fuel);
        let rest = eval_block_from(block, i + 1, r.state, r.stream, fuel);
        lemma_follows_on(io, r.stream, rest.stream);
    }
}

/// Every run of a `for` loop leaves the mailbox in order.
pub proof fn lemma_for_order(
    var: Seq<char>,
    items: Seq<SpecValue>,
    i: nat,
    block: Seq<SpecStatement>,
    st: SpecState,
    io: SpecStream,
    fuel: nat,
)
    ensures
        in_order(io, eval_for_from(var, items, i, block, st, io, fuel)),
    decreases fuel, 1nat, block, block.len() + 1 + items.len() - i,
{
    lemma_follows_itself(io);
    if i < items.len() {
        let bound = st.define_var(var, items[i as int]);
        lemma_block_order(block, 0, bound, io, fuel);
        let r = eval_block_from(block, 0, bound, io, fuel);
        lemma_for_order(var, items, i + 1, block, r.state, r.stream, fuel);
        let rest = eval_for_from(var, items, i + 1, block, r.state, r.stream, fuel);
        lemma_follows_on(io, r.stream, rest.stream);
    }
}

/// Every run of a program leaves the mailbox in order: what it emits comes
/// behind what was emitted before, in the order of the run, and a request
/// for input that is not answered is the last event.
pub proof fn lemma_run_order(
    program: Seq<SpecStatement>,
    i: nat,
    st: SpecState,
    io: SpecStream,
    fuel: nat,
)
    ensures
        in_order(io, run_from(program, i, st, io, fuel)),
    decreases program.len() - i,
{
    lemma_follows_itself(io);
    if i < program.len() {
        lemma_stmt_order(program[i as int], st, io, fuel);
        let r = eval_stmt(program[i as int], st, io, fuel);
        lemma_run_order(program, i + 1, r.state, r.stream, fuel);
        let rest = run_from(program, i + 1, r.state, r.stream, fuel);
        lemma_follows_on(io, r.stream, rest.stream);
    }
}

} // verus!
