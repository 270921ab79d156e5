use pal::error::ErrorType;
use pal::eval::Halt;
use pal::{run_program, run_program_with_stream, Event, Failure, Stream};

const ENOUGH: u64 = 1_000_000;

fn output(text: &str) -> Option<Event> {
    Some(Event::Output(String::from(text)))
}

#[test]
fn stream_keeps_the_order() {
    let mut stream = Stream::new();
    assert_eq!(None, stream.get_event());
    stream.write_output("a");
    stream.write_output("b\n");
    stream.finished();
    assert_eq!(output("a"), stream.get_event());
    assert_eq!(output("b\n"), stream.get_event());
    assert_eq!(Some(Event::Finished), stream.get_event());
    assert_eq!(None, stream.get_event());
}

#[test]
fn stream_input() {
    let mut stream = Stream::new();
    assert_eq!(None, stream.read_input());
    assert_eq!(Some(Event::NeedsInput), stream.get_event());
    stream.write_input("one");
    stream.write_input("two");
    assert_eq!(Some(String::from("one")), stream.read_input());
    assert_eq!(Some(String::from("two")), stream.read_input());
    assert_eq!(None, stream.read_input());
    assert_eq!(Some(Event::NeedsInput), stream.get_event());
    assert_eq!(Some(Event::NeedsInput), stream.get_event());
    assert_eq!(Some(Event::NeedsInput), stream.get_event());
    assert_eq!(None, stream.get_event());
}

#[test]
fn run_program_arithmetic() {
    let mut stream = Stream::new();
    let text = "let x = -12; let y = x / -4; x = x * y; print_line x; print y;";
    assert!(run_program(text, &mut stream, ENOUGH).is_ok());
    assert_eq!(output("-36\n"), stream.get_event());
    assert_eq!(output("3"), stream.get_event());
    assert_eq!(None, stream.get_event());
}

#[test]
fn run_program_if_else_chain() {
    let mut stream = Stream::new();
    let text = "let x = false; let y = 0;
        if (x && false) { y = 1; } else if (x || false) { y = 2; } else if (x) { y = 3; } else { y = 4; }
        print y;";
    assert!(run_program(text, &mut stream, ENOUGH).is_ok());
    assert_eq!(output("4"), stream.get_event());
}

#[test]
fn run_program_function_and_while() {
    let mut stream = Stream::new();
    let text = "let total = 0;
        int sum3(x, y, z) { return x + y + z; }
        void count(i) { while (i >= 0) { total = total + sum3(i, i + 1, i + 2); i = i - 1; } }
        count(10);
        print total;";
    assert!(run_program(text, &mut stream, ENOUGH).is_ok());
    assert_eq!(output("198"), stream.get_event());
}

#[test]
fn run_program_arrays() {
    let mut stream = Stream::new();
    let text = "let a = [1, false, [\"hello!\"]];
        print a[0]; print a[1]; print a[2][0];
        print letters(\"hello!\");
        print length([1, false, [\"hello!\", 0]]);
        a[2][0] = range(3, 1); delete a[1]; print a;
        for x in step(0, 10, 5) { print_line x; }";
    assert!(run_program(text, &mut stream, ENOUGH).is_ok());
    assert_eq!(output("1"), stream.get_event());
    assert_eq!(output("false"), stream.get_event());
    assert_eq!(output("\"hello!\""), stream.get_event());
    assert_eq!(output("[\"h\", \"e\", \"l\", \"l\", \"o\", \"!\"]"), stream.get_event());
    assert_eq!(output("3"), stream.get_event());
    assert_eq!(output("[1, [[3, 2, 1]]]"), stream.get_event());
    assert_eq!(output("0\n"), stream.get_event());
    assert_eq!(output("5\n"), stream.get_event());
    assert_eq!(output("10\n"), stream.get_event());
    assert_eq!(None, stream.get_event());
}

/// The kind of runtime error with which the program ends.
fn fails_with(text: &str) -> ErrorType {
    let mut stream = Stream::new();
    match run_program(text, &mut stream, ENOUGH) {
        Err(Failure::Halt(Halt::Error(e))) => e.err_type(),
        other => panic!("{:?}", other),
    }
}

#[test]
fn run_program_errors() {
    assert_eq!(ErrorType::ArrayIndexOutOfBounds, fails_with("let a = [1]; print a[1];"));
    assert_eq!(ErrorType::ArrayIndexOutOfBounds, fails_with("let a = [1]; print a[-1];"));
    assert_eq!(ErrorType::ArrayIndexOutOfBounds, fails_with("let a = [[1]]; a[0][1] = 2;"));
    assert_eq!(ErrorType::Type, fails_with("let a = [1, false]; print a[1][0];"));
    assert_eq!(ErrorType::Type, fails_with("print length(false);"));
    assert_eq!(ErrorType::Step, fails_with("print step(1, 5, 0);"));
    assert_eq!(ErrorType::Step, fails_with("print step(1, 5, -1);"));
    assert_eq!(ErrorType::Type, fails_with("int f() { return true; } print f();"));
    assert_eq!(ErrorType::Type, fails_with("int f() { } f();"));
    assert_eq!(ErrorType::RedefinedFunction, fails_with("void f() { } void f() { }"));
    assert_eq!(ErrorType::UndefinedFunction, fails_with("f();"));
    assert_eq!(ErrorType::UndefinedVariable, fails_with("x = 1;"));
    assert_eq!(ErrorType::Argument, fails_with("void f(a) { } f();"));
}

#[test]
fn run_program_keeps_what_was_done_before_an_error() {
    let mut stream = Stream::new();
    let r = run_program("let a = [2]; print 1; print a[1]; print 3;", &mut stream, ENOUGH);
    assert!(matches!(r, Err(Failure::Halt(Halt::Error(_)))));
    assert_eq!(output("1"), stream.get_event());
    assert_eq!(None, stream.get_event());
}

#[test]
fn run_program_refuses_what_is_no_program() {
    let mut stream = Stream::new();
    assert!(matches!(run_program("let = ;", &mut stream, ENOUGH), Err(Failure::Parse(_))));
    assert_eq!(None, stream.get_event());
    assert!(matches!(
        run_program_with_stream("print 1", &mut stream, ENOUGH),
        Err(Failure::Parse(_))
    ));
    assert_eq!(None, stream.get_event());
}

#[test]
fn run_with_stream_finishes() {
    let mut stream = Stream::new();
    assert!(run_program_with_stream("print_line 1 + 1;", &mut stream, ENOUGH).is_ok());
    assert_eq!(output("2\n"), stream.get_event());
    assert_eq!(Some(Event::Finished), stream.get_event());
    assert_eq!(None, stream.get_event());
}

#[test]
fn run_with_stream_reports_the_error_as_output() {
    let mut stream = Stream::new();
    let r = run_program_with_stream("print 1; x = 2; print 3;", &mut stream, ENOUGH);
    assert!(matches!(r, Err(Failure::Halt(Halt::Error(_)))));
    assert_eq!(output("1"), stream.get_event());
    assert_eq!(
        output("UndefinedVariableError: The variable `x` has not been declared, so it can't have a value assigned to it"),
        stream.get_event()
    );
    assert_eq!(Some(Event::Finished), stream.get_event());
    assert_eq!(None, stream.get_event());
}

#[test]
fn run_with_stream_waits_for_input() {
    let text = "print \"name? \"; let name = readline(); print_line name;";
    let mut stream = Stream::new();
    let r = run_program_with_stream(text, &mut stream, ENOUGH);
    assert!(matches!(r, Err(Failure::Halt(Halt::NeedsInput))));
    assert_eq!(output("\"name? \""), stream.get_event());
    assert_eq!(Some(Event::NeedsInput), stream.get_event());
    assert_eq!(None, stream.get_event());
    // With the line supplied, the same program runs to its end.
    let mut stream = Stream::new();
    stream.write_input("world\n");
    assert!(run_program_with_stream(text, &mut stream, ENOUGH).is_ok());
    assert_eq!(output("\"name? \""), stream.get_event());
    assert_eq!(Some(Event::NeedsInput), stream.get_event());
    assert_eq!(output("\"world\"\n"), stream.get_event());
    assert_eq!(Some(Event::Finished), stream.get_event());
}

#[test]
fn run_with_stream_out_of_fuel() {
    let mut stream = Stream::new();
    let r = run_program_with_stream("while (true) { }", &mut stream, 10);
    assert!(matches!(r, Err(Failure::Halt(Halt::OutOfFuel))));
    assert_eq!(Some(Event::Finished), stream.get_event());
}

#[test]
fn a_run_appends_to_the_events_that_wait() {
    let mut stream = Stream::new();
    stream.write_output("before");
    stream.write_input("one\n");
    stream.write_input("two\n");
    let r = run_program_with_stream("print readline(); print 2;", &mut stream, ENOUGH);
    assert!(r.is_ok());
    assert_eq!(output("before"), stream.get_event());
    assert_eq!(Some(Event::NeedsInput), stream.get_event());
    assert_eq!(output("\"one\""), stream.get_event());
    assert_eq!(output("2"), stream.get_event());
    assert_eq!(Some(Event::Finished), stream.get_event());
    assert_eq!(None, stream.get_event());
    // The line that was not asked for is still the next one.
    assert_eq!(Some("two\n".to_string()), stream.read_input());
}
