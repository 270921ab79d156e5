use pal::eval::Halt;
use pal::parser::parse_program;
use pal::session::{Mode, Session};
use pal::Event;

const PLENTY: u64 = 10_000;

fn session_of(text: &str, mode: Mode) -> Session {
    let mut session = Session::new(mode, PLENTY);
    for stmt in parse_program(text).unwrap() {
        session.push(stmt);
    }
    session
}

fn shown(text: &str) -> Event {
    Event::Output(String::from(text))
}

#[test]
fn session_hands_out_each_event_once() {
    let text = "print 1; let a = readline(); print a; let b = readline(); print_line b;";
    let mut session = session_of(text, Mode::Program);
    let (events, result) = session.advance();
    assert_eq!(vec![shown("1"), Event::NeedsInput], events);
    assert!(matches!(result, Err(Halt::NeedsInput)));
    // Without a line, the run ends where it ended, and nothing is new.
    let (events, result) = session.advance();
    assert!(events.is_empty());
    assert!(matches!(result, Err(Halt::NeedsInput)));
    session.supply("one\n");
    let (events, result) = session.advance();
    assert_eq!(vec![shown("\"one\""), Event::NeedsInput], events);
    assert!(matches!(result, Err(Halt::NeedsInput)));
    session.supply("two\n");
    let (events, result) = session.advance();
    assert_eq!(vec![shown("\"two\"\n")], events);
    assert!(result.is_ok());
    let (events, result) = session.advance();
    assert!(events.is_empty());
    assert!(result.is_ok());
}

#[test]
fn session_of_a_program_ends_with_the_first_error() {
    let mut session = session_of("print 1; x = 2; print 3;", Mode::Program);
    let (events, result) = session.advance();
    assert_eq!(vec![shown("1")], events);
    match result {
        Err(Halt::Error(e)) => assert_eq!(
            "UndefinedVariableError: The variable `x` has not been declared, so it can't have a value assigned to it",
            e.to_string()
        ),
        other => panic!("no error: {:?}", other),
    }
}

#[test]
fn session_at_a_prompt_goes_on_after_an_error() {
    let mut session = Session::new(Mode::Prompt, PLENTY);
    for stmt in parse_program("let x = 1; print x;").unwrap() {
        session.push(stmt);
    }
    let (events, result) = session.advance();
    assert_eq!(vec![shown("1")], events);
    assert!(result.is_ok());
    // A statement that fails is reported while it is the last.
    session.push(parse_program("y = 2;").unwrap().remove(0));
    let (events, result) = session.advance();
    assert!(events.is_empty());
    assert!(matches!(result, Err(Halt::Error(_))));
    // The next statement sees what the earlier ones left.
    session.push(parse_program("print x + 1;").unwrap().remove(0));
    let (events, result) = session.advance();
    assert_eq!(vec![shown("2")], events);
    assert!(result.is_ok());
}

#[test]
fn session_that_is_streamed_tells_how_it_ended() {
    let mut session = session_of("print 1; x = 2; print 3;", Mode::Streamed);
    let (events, result) = session.advance();
    assert_eq!(
        vec![
            shown("1"),
            shown("UndefinedVariableError: The variable `x` has not been declared, so it can't have a value assigned to it"),
            Event::Finished,
        ],
        events
    );
    assert!(matches!(result, Err(Halt::Error(_))));

    let mut session = session_of("print readline();", Mode::Streamed);
    let (events, result) = session.advance();
    assert_eq!(vec![Event::NeedsInput], events);
    assert!(matches!(result, Err(Halt::NeedsInput)));
    session.supply("line\n");
    let (events, result) = session.advance();
    assert_eq!(vec![shown("\"line\""), Event::Finished], events);
    assert!(result.is_ok());

    let mut session = session_of("while (true) { }", Mode::Streamed);
    let (events, result) = session.advance();
    assert_eq!(vec![Event::Finished], events);
    assert!(matches!(result, Err(Halt::OutOfFuel)));
}
