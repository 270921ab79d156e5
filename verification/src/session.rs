//! A run that can wait for its input.
//!
//! The evaluator never waits: where it finds no line of input, it halts. A
//! session keeps the statements and the lines of input of a run. Each time
//! it advances it makes the run again from the start, with all the lines
//! that were supplied so far, and hands out the events that it had not yet
//! handed out.

use crate::ast::{stmts_view, strings_view, SpecStatement, SpecValue, Statement};
use crate::error::SpecError;
use crate::eval::order::{follows, lemma_follows_itself, lemma_follows_on, lemma_stmt_order};
use crate::eval::replay::{
    begins, lemma_begins_itself, lemma_begins_more, lemma_begins_on, lemma_follows_begins,
    lemma_stmt_replay, lemma_waits_then, replayed, with_more,
};
use crate::eval::semantics::{eval_stmt, run_from, Outcome, SpecHalt};
use crate::eval::Halt;
use crate::state::{SpecState, State};
use crate::stream::{events_view, Event, SpecEvent, SpecStream, Stream};
use vstd::prelude::*;
use vstd::string::StringExecFns;

verus! {

broadcast use crate::ast::group_ast_views;

/// How a session runs its statements.
#[derive(Clone, Copy, Debug, PartialEq, Eq)]
pub enum Mode {
    /// As a program: the first halt ends the run.
    Program,
    /// As at a prompt: after a runtime error of a statement that is not
    /// the last, the next statement is evaluated.
    Prompt,
    /// As a program that tells its host how it ended: a runtime error is
    /// emitted as output, and `Finished` behind all output.
    Streamed,
}

/// The text of a runtime error: the kind's name, a colon and the message.
pub open spec fn error_text(e: SpecError) -> Seq<char> {
    e.err.spec_name() + ": "@ + e.message
}

/// The outcome of evaluating the statements from the `i`-th on, one after
/// the other. The first halt ends the run, but for a runtime error at a
/// prompt, where the statements that follow are evaluated still.
pub open spec fn session_from(
    stmts: Seq<SpecStatement>,
    i: nat,
    st: SpecState,
    io: SpecStream,
    fuel: nat,
    mode: Mode,
) -> Outcome<()>
    decreases stmts.len() - i,
{
    if i >= stmts.len() {
        Outcome::ok((), st, io)
    } else {
        let r = eval_stmt(stmts[i as int], st, io, fuel);
        match r.result {
            Ok(_) => session_from(stmts, i + 1, r.state, r.stream, fuel, mode),
            Err(h) => if mode is Prompt && h is Error && i + 1 < stmts.len() {
                session_from(stmts, i + 1, r.state, r.stream, fuel, mode)
            } else {
                Outcome::halt(h, r.state, r.stream)
            },
        }
    }
}

/// The outcome of the whole run of a session: from the empty state, with
/// the lines `inputs` waiting and no event.
pub open spec fn session_run(
    stmts: Seq<SpecStatement>,
    inputs: Seq<Seq<char>>,
    fuel: nat,
    mode: Mode,
) -> Outcome<()> {
    session_from(
        stmts,
        0,
        SpecState::empty(),
        SpecStream { inputs, events: Seq::empty() },
        fuel,
        mode,
    )
}

/// What a run that is streamed tells its host at its end: nothing where it
/// waits for input; else the text of its runtime error, if it ended with
/// one, and `Finished`.
pub open spec fn closing(result: Result<(), SpecHalt>) -> Seq<SpecEvent> {
    match result {
        Ok(_) => seq![SpecEvent::Finished],
        Err(SpecHalt::NeedsInput) => Seq::empty(),
        Err(SpecHalt::Error(e)) => seq![SpecEvent::Output(error_text(e)), SpecEvent::Finished],
        Err(_) => seq![SpecEvent::Finished],
    }
}

/// All the events of the whole run of a session, in order.
pub open spec fn session_events(
    stmts: Seq<SpecStatement>,
    inputs: Seq<Seq<char>>,
    fuel: nat,
    mode: Mode,
) -> Seq<SpecEvent> {
    let r = session_run(stmts, inputs, fuel, mode);
    if mode is Streamed {
        r.stream.events + closing(r.result)
    } else {
        r.stream.events
    }
}

/// The model of the result of a run.
pub open spec fn halt_result(r: Result<(), Halt>) -> Result<(), SpecHalt> {
    match r {
        Ok(_) => Ok(()),
        Err(h) => Err(h@),
    }
}

/// The statements and the lines of input of a run, and how many of its
/// events were handed out.
pub struct Session {
    statements: Vec<Statement>,
    inputs: Vec<String>,
    shown: usize,
    fuel: u64,
    mode: Mode,
}

impl Session {
    /// The statements of the run.
    pub closed spec fn statements(&self) -> Seq<SpecStatement> {
        stmts_view(self.statements@)
    }

    /// The lines of input that were supplied, oldest first.
    pub closed spec fn inputs(&self) -> Seq<Seq<char>> {
        strings_view(self.inputs@)
    }

    /// The number of events that were handed out.
    pub closed spec fn shown(&self) -> nat {
        self.shown as nat
    }

    /// The budget of loop passes and nested calls of each run.
    pub closed spec fn fuel(&self) -> nat {
        self.fuel as nat
    }

    /// How the statements are run.
    pub closed spec fn mode(&self) -> Mode {
        self.mode
    }

    /// The result of the whole run, with the lines supplied so far.
    pub open spec fn result(&self) -> Result<(), SpecHalt> {
        session_run(self.statements(), self.inputs(), self.fuel(), self.mode()).result
    }

    /// All the events of the whole run, with the lines supplied so far.
    pub open spec fn events(&self) -> Seq<SpecEvent> {
        session_events(self.statements(), self.inputs(), self.fuel(), self.mode())
    }

    /// A session with no statement and no line of input.
    pub fn new(mode: Mode, fuel: u64) -> (s: Session)
        ensures
            s.statements() == Seq::<SpecStatement>::empty(),
            s.inputs() == Seq::<Seq<char>>::empty(),
            s.shown() == 0,
            s.fuel() == fuel,
            s.mode() == mode,
    {
        let s = Session { statements: Vec::new(), inputs: Vec::new(), shown: 0, fuel, mode };
        assert(s.inputs() =~= Seq::<Seq<char>>::empty());
        s
    }

    /// Adds a statement behind those of the run. At a prompt, the events
    /// of the run are then the first of the events of the longer run.
    pub fn push(&mut self, stmt: Statement)
        ensures
            final(self).statements() == old(self).statements().push(stmt@),
            final(self).inputs() == old(self).inputs(),
            final(self).shown() == old(self).shown(),
            final(self).fuel() == old(self).fuel(),
            final(self).mode() == old(self).mode(),
            old(self).mode() is Prompt ==> begins(final(self).events(), old(self).events()),
    {
        proof {
            lemma_next_statement_goes_on(
                self.statements(),
                stmt@,
                0,
                SpecState::empty(),
                SpecStream { inputs: self.inputs(), events: Seq::empty() },
                self.fuel(),
            );
        }
        self.statements.push(stmt);
        assert(self.statements@.drop_last() =~= old(self).statements@);
    }

    /// Supplies a line of input, behind those that were supplied before.
    /// The events of the run are then the first of the events of the run
    /// with that line.
    pub fn supply(&mut self, line: &str)
        ensures
            final(self).inputs() == old(self).inputs().push(line@),
            final(self).statements() == old(self).statements(),
            final(self).shown() == old(self).shown(),
            final(self).fuel() == old(self).fuel(),
            final(self).mode() == old(self).mode(),
            begins(final(self).events(), old(self).events()),
    {
        proof {
            lemma_more_input_goes_on(
                self.statements(),
                self.inputs(),
                seq![line@],
                self.fuel(),
                self.mode(),
            );
            assert(self.inputs() + seq![line@] =~= self.inputs().push(line@));
        }
        self.inputs.push(String::from_str(line));
        assert(final(self).inputs() =~= old(self).inputs().push(line@));
    }

    /// Runs the statements against `state` and `stream`.
    fn run(&self, state: &mut State, stream: &mut Stream) -> (r: Result<(), Halt>)
        ensures
            session_from(
                self.statements(),
                0,
                old(state)@,
                old(stream)@,
                self.fuel(),
                self.mode(),
            ) == (Outcome { result: halt_result(r), state: final(state)@, stream: final(stream)@ }),
    {
        let ghost model = self.statements();
        let ghost st0 = state@;
        let ghost io0 = stream@;
        let mut i: usize = 0;
        while i < self.statements.len()
            invariant
                i <= self.statements.len(),
                model == stmts_view(self.statements@),
                st0 == old(state)@,
                io0 == old(stream)@,
                session_from(model, 0, st0, io0, self.fuel as nat, self.mode) == session_from(
                    model,
                    i as nat,
                    state@,
                    stream@,
                    self.fuel as nat,
                    self.mode,
                ),
            decreases self.statements.len() - i,
        {
            match self.statements[i].eval(state, stream, self.fuel) {
                Ok(_) => {},
                Err(h) => {
                    let goes_on = match (self.mode, &h) {
                        (Mode::Prompt, Halt::Error(_)) => i + 1 < self.statements.len(),
                        _ => false,
                    };
                    if !goes_on {
                        return Err(h);
                    }
                },
            }
            i += 1;
        }
        Ok(())
    }

    /// Makes the run again from the start, with the lines supplied so far.
    /// Gives the events of the run that were not yet handed out, in order,
    /// and the result of the run. Where the result is `NeedsInput`, the
    /// run goes on when a line was supplied and the session advances again.
    pub fn advance(&mut self) -> (r: (Vec<Event>, Result<(), Halt>))
        ensures
            final(self).statements() == old(self).statements(),
            final(self).inputs() == old(self).inputs(),
            final(self).fuel() == old(self).fuel(),
            final(self).mode() == old(self).mode(),
            halt_result(r.1) == old(self).result(),
            events_view(r.0@) == old(self).events().skip(
                if old(self).shown() <= old(self).events().len() {
                    old(self).shown() as int
                } else {
                    old(self).events().len() as int
                },
            ),
            final(self).shown() == old(self).events().len(),
    {
        let mut state = State::new();
        let mut stream = Stream::new();
        let mut k: usize = 0;
        while k < self.inputs.len()
            invariant
                k <= self.inputs.len(),
                stream@.events == Seq::<SpecEvent>::empty(),
                stream@.inputs == strings_view(self.inputs@).take(k as int),
            decreases self.inputs.len() - k,
        {
            stream.write_input(self.inputs[k].as_str());
            assert(strings_view(self.inputs@).take(k + 1) =~= strings_view(self.inputs@).take(
                k as int,
            ).push(self.inputs@[k as int]@));
            k += 1;
        }
        assert(strings_view(self.inputs@).take(k as int) =~= strings_view(self.inputs@));
        let result = self.run(&mut state, &mut stream);
        match self.mode {
            Mode::Streamed => match &result {
                Ok(_) => {
                    stream.finished();
                },
                Err(Halt::NeedsInput) => {},
                Err(Halt::Error(e)) => {
                    stream.write_output(e.to_string().as_str());
                    stream.finished();
                },
                Err(_) => {
                    stream.finished();
                },
            },
            _ => {},
        }
        assert(stream@.events =~= self.events());
        let total = stream.pending();
        let fresh = stream.take_after(self.shown);
        self.shown = total;
        (fresh, result)
    }
}

/// A session that runs as a program runs its statements as `run_from` does.
pub proof fn lemma_program_session(
    stmts: Seq<SpecStatement>,
    i: nat,
    st: SpecState,
    io: SpecStream,
    fuel: nat,
)
    ensures
        session_from(stmts, i, st, io, fuel, Mode::Program) == run_from(stmts, i, st, io, fuel),
        session_from(stmts, i, st, io, fuel, Mode::Streamed) == run_from(stmts, i, st, io, fuel),
    decreases stmts.len() - i,
{
    if i < stmts.len() {
        let r = eval_stmt(stmts[i as int], st, io, fuel);
        lemma_program_session(stmts, i + 1, r.state, r.stream, fuel);
    }
}

/// Every run of a session appends its events behind those that wait and
/// takes its lines of input from the front.
pub proof fn lemma_session_order(
    stmts: Seq<SpecStatement>,
    i: nat,
    st: SpecState,
    io: SpecStream,
    fuel: nat,
    mode: Mode,
)
    ensures
        follows(io, session_from(stmts, i, st, io, fuel, mode).stream),
    decreases stmts.len() - i,
{
    lemma_follows_itself(io);
    if i < stmts.len() {
        lemma_stmt_order(stmts[i as int], st, io, fuel);
        let r = eval_stmt(stmts[i as int], st, io, fuel);
        lemma_session_order(stmts, i + 1, r.state, r.stream, fuel, mode);
        let rest = session_from(stmts, i + 1, r.state, r.stream, fuel, mode);
        lemma_follows_on(io, r.stream, rest.stream);
    }
}

/// More input does to the run of a session what `replayed` says: nothing,
/// unless the run halted for want of input, and then the events of the run
/// are the first of those of the run with more input.
pub proof fn lemma_session_replay(
    stmts: Seq<SpecStatement>,
    i: nat,
    st: SpecState,
    io: SpecStream,
    extra: Seq<Seq<char>>,
    fuel: nat,
    mode: Mode,
)
    ensures
        replayed(
            session_from(stmts, i, st, io, fuel, mode),
            session_from(stmts, i, st, with_more(io, extra), fuel, mode),
            extra,
        ),
    decreases stmts.len() - i,
{
    let io2 = with_more(io, extra);
    let w1 = session_from(stmts, i, st, io, fuel, mode);
    let w2 = session_from(stmts, i, st, io2, fuel, mode);
    lemma_begins_itself(w1.stream.events);
    if i < stmts.len() {
        lemma_stmt_replay(stmts[i as int], st, io, extra, fuel);
        let a1 = eval_stmt(stmts[i as int], st, io, fuel);
        let a2 = eval_stmt(stmts[i as int], st, io2, fuel);
        if a1.result == Err::<Option<SpecValue>, SpecHalt>(SpecHalt::NeedsInput) {
            lemma_follows_itself(a2.stream);
            lemma_session_order(stmts, i + 1, a2.state, a2.stream, fuel, mode);
            lemma_waits_then(a1, a2, extra, w2.stream);
        } else {
            lemma_session_replay(stmts, i + 1, a1.state, a1.stream, extra, fuel, mode);
        }
    }
}

/// The events of the run of a session are the first of the events of its
/// run with more lines of input: what was handed out stays as it was, and
/// what a session hands out when a line was supplied is all that is new.
pub proof fn lemma_more_input_goes_on(
    stmts: Seq<SpecStatement>,
    inputs: Seq<Seq<char>>,
    extra: Seq<Seq<char>>,
    fuel: nat,
    mode: Mode,
)
    ensures
        begins(
            session_events(stmts, inputs + extra, fuel, mode),
            session_events(stmts, inputs, fuel, mode),
        ),
{
    let io = SpecStream { inputs, events: Seq::empty() };
    let w1 = session_run(stmts, inputs, fuel, mode);
    let w2 = session_run(stmts, inputs + extra, fuel, mode);
    lemma_session_replay(stmts, 0, SpecState::empty(), io, extra, fuel, mode);
    assert(with_more(io, extra) == (SpecStream { inputs: inputs + extra, events: Seq::empty() }));
    lemma_begins_itself(session_events(stmts, inputs, fuel, mode));
    if w1.result == Err::<(), SpecHalt>(SpecHalt::NeedsInput) {
        if mode is Streamed {
            assert(closing(w1.result) =~= Seq::<SpecEvent>::empty());
            assert(w1.stream.events + closing(w1.result) =~= w1.stream.events);
            lemma_begins_more(w2.stream.events, closing(w2.result));
            lemma_begins_on(
                w1.stream.events,
                w2.stream.events,
                w2.stream.events + closing(w2.result),
            );
        }
    }
}

/// The events of the run of a session are the first of the events of its
/// run with one statement more.
pub proof fn lemma_next_statement_goes_on(
    stmts: Seq<SpecStatement>,
    next: SpecStatement,
    i: nat,
    st: SpecState,
    io: SpecStream,
    fuel: nat,
)
    requires
        i <= stmts.len(),
    ensures
        begins(
            session_from(stmts.push(next), i, st, io, fuel, Mode::Prompt).stream.events,
            session_from(stmts, i, st, io, fuel, Mode::Prompt).stream.events,
        ),
    decreases stmts.len() - i,
{
    let more = stmts.push(next);
    let w1 = session_from(stmts, i, st, io, fuel, Mode::Prompt);
    let w2 = session_from(more, i, st, io, fuel, Mode::Prompt);
    lemma_begins_itself(w1.stream.events);
    if i < stmts.len() {
        assert(more[i as int] == stmts[i as int]);
        let r = eval_stmt(stmts[i as int], st, io, fuel);
        lemma_next_statement_goes_on(stmts, next, i + 1, r.state, r.stream, fuel);
        lemma_session_order(more, i + 1, r.state, r.stream, fuel, Mode::Prompt);
        let rest = session_from(more, i + 1, r.state, r.stream, fuel, Mode::Prompt);
        lemma_follows_begins(r.stream, rest.stream);
    } else {
        lemma_session_order(more, i, st, io, fuel, Mode::Prompt);
        lemma_follows_begins(io, w2.stream);
    }
}

} // verus!
