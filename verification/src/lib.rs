//! A tree-walking interpreter for a small imperative language.
//!
//! A program is parsed into statements, which are evaluated against a
//! [`State`](state::State). Output and requests for input go to a
//! [`Stream`], the mailbox between the evaluator and its host. The evaluator
//! never waits for input; a [`Session`](session::Session) makes a run again
//! each time a line has arrived, and hands out what is new.

pub mod ast;
pub mod display;
pub mod error;
pub mod eval;
pub mod parser;
pub mod session;
pub mod state;
pub mod stream;
pub mod text;
pub mod token;

pub use crate::stream::{Event, Stream};

use crate::ast::{stmts_view, Statement};
use crate::eval::Halt;
use crate::eval::semantics::{run_from, Outcome, SpecHalt};
use crate::parser::grammar::{parse_program_text, SpecParseError};
use crate::parser::{parse_program, ParseError};
use crate::state::{SpecState, State};
use crate::stream::{SpecEvent, SpecStream};
use vstd::prelude::*;

verus! {

broadcast use crate::ast::group_ast_views;

/// Why a program did not run to its end.
#[derive(Debug)]
pub enum Failure {
    /// The text is no program.
    Parse(ParseError),
    /// The evaluation halted.
    Halt(Halt),
}

/// Mathematical model of a failure.
pub enum SpecFailure {
    Parse(SpecParseError),
    Halt(SpecHalt),
}

impl View for Failure {
    type V = SpecFailure;

    open spec fn view(&self) -> SpecFailure {
        match self {
            Failure::Parse(e) => SpecFailure::Parse(e@),
            Failure::Halt(h) => SpecFailure::Halt(h@),
        }
    }
}

/// The model of the result of a run.
pub open spec fn run_result(r: Result<(), Halt>) -> Result<(), SpecHalt> {
    match r {
        Ok(_) => Ok(()),
        Err(h) => Err(h@),
    }
}

/// The result of running the program that the text `s` holds, from the
/// empty state, and the mailbox as the run leaves it.
pub open spec fn program_outcome(s: Seq<char>, io: SpecStream, fuel: nat) -> (
    Result<(), SpecFailure>,
    SpecStream,
) {
    match parse_program_text(s) {
        Err(e) => (Err(SpecFailure::Parse(e)), io),
        Ok(program) => {
            let run = run_from(program, 0, SpecState::empty(), io, fuel);
            match run.result {
                Ok(_) => (Ok(()), run.stream),
                Err(h) => (Err(SpecFailure::Halt(h)), run.stream),
            }
        },
    }
}

/// Runs the statements of a program in order, against `state`. A `return`
/// at the top level ends its statement and nothing more; the first halt
/// ends the run. The run leaves as many local scopes open as it found: after
/// a run from a state with none, the variables of the state are those of the
/// global scope, and `State::len` counts them.
pub fn run(program: &Vec<Statement>, state: &mut State, stream: &mut Stream, fuel: u64) -> (r:
    Result<(), Halt>)
    ensures
        run_from(stmts_view(program@), 0, old(state)@, old(stream)@, fuel as nat) == (Outcome {
            result: run_result(r),
            state: final(state)@,
            stream: final(stream)@,
        }),
        final(state)@.locals.len() == old(state)@.locals.len(),
        old(state)@.locals.len() == 0 ==> final(state)@.len() == final(state)@.global.len()
            && final(state)@.len() <= usize::MAX,
{
    let ghost model = stmts_view(program@);
    let ghost st0 = state@;
    let ghost io0 = stream@;
    let mut i: usize = 0;
    while i < program.len()
        invariant
            i <= program.len(),
            model == stmts_view(program@),
            st0 == old(state)@,
            io0 == old(stream)@,
            run_from(model, 0, st0, io0, fuel as nat) == run_from(
                model,
                i as nat,
                state@,
                stream@,
                fuel as nat,
            ),
            state@.locals.len() == st0.locals.len(),
        decreases program.len() - i,
    {
        match program[i].eval(state, stream, fuel) {
            Ok(_) => {},
            Err(h) => {
                proof {
                    if state@.locals.len() == 0 {
                        state.lemma_len_fits();
                    }
                }
                return Err(h);
            },
        }
        i += 1;
    }
    proof {
        if state@.locals.len() == 0 {
            state.lemma_len_fits();
        }
    }
    Ok(())
}

/// Parses the program and runs it from the empty state, with `stream` for
/// its input and output.
pub fn run_program(program_str: &str, stream: &mut Stream, fuel: u64) -> (r: Result<(), Failure>)
    ensures
        program_outcome(program_str@, old(stream)@, fuel as nat) == (
            match r {
                Ok(_) => Ok::<(), SpecFailure>(()),
                Err(f) => Err::<(), SpecFailure>(f@),
            },
            final(stream)@,
        ),
{
    let program = match parse_program(program_str) {
        Ok(program) => program,
        Err(e) => {
            return Err(Failure::Parse(e));
        },
    };
    let mut state = State::new();
    match run(&program, &mut state, stream, fuel) {
        Ok(_) => Ok(()),
        Err(h) => Err(Failure::Halt(h)),
    }
}

/// Whether the host is told that the run is over: it is, unless the run
/// waits for input or the text is no program.
pub open spec fn run_is_over(r: Result<(), SpecFailure>) -> bool {
    match r {
        Ok(_) => true,
        Err(SpecFailure::Halt(SpecHalt::NeedsInput)) => false,
        Err(SpecFailure::Halt(_)) => true,
        Err(SpecFailure::Parse(_)) => false,
    }
}

/// Parses the program and runs it from the empty state, and tells the host
/// how it ended: a runtime error is emitted as output, and `Finished` is
/// emitted behind all output, unless the run waits for input.
pub fn run_program_with_stream(program_str: &str, stream: &mut Stream, fuel: u64) -> (r: Result<
    (),
    Failure,
>)
    ensures
        ({
            let ran = program_outcome(program_str@, old(stream)@, fuel as nat);
            let told = match r {
                Err(Failure::Halt(Halt::Error(e))) => ran.1.emit(SpecEvent::Output(e.spec_text())),
                _ => ran.1,
            };
            &&& ran.0 == match r {
                Ok(_) => Ok::<(), SpecFailure>(()),
                Err(f) => Err::<(), SpecFailure>(f@),
            }
            &&& final(stream)@ == if run_is_over(ran.0) {
                told.emit(SpecEvent::Finished)
            } else {
                told
            }
        }),
{
    let r = run_program(program_str, stream, fuel);
    match &r {
        Ok(_) => {
            stream.finished();
        },
        Err(Failure::Halt(Halt::Error(e))) => {
            stream.write_output(e.to_string().as_str());
            stream.finished();
        },
        Err(Failure::Halt(Halt::NeedsInput)) => {},
        Err(Failure::Halt(_)) => {
            stream.finished();
        },
        Err(Failure::Parse(_)) => {},
    }
    r
}

} // verus!
