use pal::ast::{BinOp, Expr, Statement, Type, Value};
use pal::error::ErrorType;
use pal::eval::Halt;
use pal::state::State;
use pal::{Event, Stream};

const FUEL: u64 = 1_000_000;

fn num(i: i64) -> Expr {
    Expr::Value(Value::Int(i))
}

fn boolean(b: bool) -> Expr {
    Expr::Value(Value::Bool(b))
}

fn string(s: &str) -> Expr {
    Expr::Value(Value::Str(String::from(s)))
}

fn var(name: &str) -> Expr {
    Expr::Var(String::from(name))
}

fn not(e: Expr) -> Expr {
    Expr::Not(Box::new(e))
}

fn bin_exp(l: Expr, op: BinOp, r: Expr) -> Expr {
    Expr::BinExp(Box::new(l), op, Box::new(r))
}

fn call(name: &str, args: Vec<Expr>) -> Expr {
    Expr::Call(String::from(name), args)
}

fn index(array: &str, first: Expr, more: Vec<Expr>) -> Expr {
    Expr::ArrayElement(String::from(array), Box::new(first), more)
}

fn length(e: Expr) -> Expr {
    Expr::Length(Box::new(e))
}

fn letters(e: Expr) -> Expr {
    Expr::Letters(Box::new(e))
}

fn val_string(s: &str) -> Value {
    Value::Str(String::from(s))
}

fn stmt_let(name: &str, e: Expr) -> Statement {
    Statement::Let(String::from(name), e)
}

fn stmt_var_assign(name: &str, e: Expr) -> Statement {
    Statement::VarAssign(String::from(name), e)
}

fn stmt_if(clause: Expr, block1: Vec<Statement>, block2: Vec<Statement>) -> Statement {
    Statement::If(clause, block1, block2)
}

/// Evaluates a statement with a mailbox of its own.
fn run(stmt: &Statement, state: &mut State) -> Result<Option<Value>, Halt> {
    let mut stream = Stream::new();
    stmt.eval(state, &mut stream, FUEL)
}

/// Evaluates an expression with a mailbox of its own.
fn value(exp: &Expr, state: &mut State) -> Result<Value, Halt> {
    let mut stream = Stream::new();
    exp.eval(state, &mut stream, FUEL)
}

/// The kind of the runtime error of a halt.
fn kind(h: Halt) -> ErrorType {
    match h {
        Halt::Error(e) => e.err_type(),
        other => panic!("no runtime error: {:?}", other),
    }
}

#[test]
fn arith() {
    /*
     * let x = -12;
     * let y = x / -4;
     * x = x * y;
     */
    let stmt1 = stmt_let("x", num(-12));
    let stmt2 = stmt_let("y", bin_exp(var("x"), BinOp::Divide, num(-4)));
    let stmt3 = stmt_var_assign("x", bin_exp(var("x"), BinOp::Times, var("y")));

    let mut state = State::new();
    run(&stmt1, &mut state).unwrap();
    run(&stmt2, &mut state).unwrap();
    run(&stmt3, &mut state).unwrap();

    assert_eq!(2, state.len());
    assert_eq!(Value::Int(-36), *state.lookup("x").unwrap());
    assert_eq!(Value::Int(3), *state.lookup("y").unwrap());
}

#[test]
fn bool() {
    /*
     * let x = -12;
     * let y = x > -4;
     * x = true || y;
     */
    let stmt1 = stmt_let("x", num(-12));
    let stmt2 = stmt_let("y", bin_exp(var("x"), BinOp::GreaterThan, num(-4)));
    let stmt3 = stmt_var_assign("x", bin_exp(boolean(true), BinOp::Or, var("y")));

    let mut state = State::new();
    run(&stmt1, &mut state).unwrap();
    run(&stmt2, &mut state).unwrap();
    run(&stmt3, &mut state).unwrap();

    assert_eq!(2, state.len());
    assert_eq!(Value::Bool(true), *state.lookup("x").unwrap());
    assert_eq!(Value::Bool(false), *state.lookup("y").unwrap());
}

#[test]
fn array_element_access() {
    // let array = [1, false, ["hello"]];
    let stmt = stmt_let(
        "array",
        Expr::Array(vec![num(1), boolean(false), Expr::Array(vec![string("hello!")])]),
    );

    let mut state = State::new();
    run(&stmt, &mut state).unwrap();

    let index_neg_one = index("array", num(-1), vec![]);
    assert_eq!(
        Err(ErrorType::ArrayIndexOutOfBounds),
        value(&index_neg_one, &mut state).map_err(kind)
    );

    let index_zero = index("array", num(0), vec![]);
    assert_eq!(Value::Int(1), value(&index_zero, &mut state).unwrap());

    let index_one = index("array", num(1), vec![]);
    assert_eq!(Value::Bool(false), value(&index_one, &mut state).unwrap());

    let index_one_zero = index("array", num(1), vec![num(0)]);
    assert_eq!(Err(ErrorType::Type), value(&index_one_zero, &mut state).map_err(kind));

    let index_two_neg_one = index("array", num(2), vec![num(-1)]);
    assert_eq!(
        Err(ErrorType::ArrayIndexOutOfBounds),
        value(&index_two_neg_one, &mut state).map_err(kind)
    );

    let index_two_zero = index("array", num(2), vec![num(0)]);
    assert_eq!(Value::Str(String::from("hello!")), value(&index_two_zero, &mut state).unwrap());

    let index_two_one = index("array", num(2), vec![num(1)]);
    assert_eq!(
        Err(ErrorType::ArrayIndexOutOfBounds),
        value(&index_two_one, &mut state).map_err(kind)
    );

    let index_three = index("array", num(3), vec![]);
    assert_eq!(
        Err(ErrorType::ArrayIndexOutOfBounds),
        value(&index_three, &mut state).map_err(kind)
    );
}

#[test]
fn length_array() {
    let array1 = Expr::Array(vec![
        num(1),
        boolean(false),
        Expr::Array(vec![string("hello!"), num(0)]),
    ]);
    let array2 = Expr::Array(vec![]);

    let length1 = length(array1);
    let length2 = length(array2);

    let mut state = State::new();

    assert_eq!(Value::Int(3), value(&length1, &mut state).unwrap());
    assert_eq!(Value::Int(0), value(&length2, &mut state).unwrap());
}

#[test]
fn length_string() {
    let length = length(string("hello!"));

    let mut state = State::new();

    assert_eq!(Value::Int(6), value(&length, &mut state).unwrap());
}

#[test]
fn length_invalid_arg() {
    let bool_length = length(boolean(false));
    let int_length = length(bin_exp(num(10), BinOp::Divide, num(3)));

    let mut state = State::new();

    assert_eq!(Err(ErrorType::Type), value(&bool_length, &mut state).map_err(kind));
    assert_eq!(Err(ErrorType::Type), value(&int_length, &mut state).map_err(kind));
}

#[test]
fn letters_string() {
    let length1 = letters(string(""));
    let length2 = letters(string("hello!"));

    let array1 = Value::Array(vec![]);
    let array2 = Value::Array(vec![
        val_string("h"),
        val_string("e"),
        val_string("l"),
        val_string("l"),
        val_string("o"),
        val_string("!"),
    ]);

    let mut state = State::new();

    assert_eq!(array1, value(&length1, &mut state).unwrap());
    assert_eq!(array2, value(&length2, &mut state).unwrap());
}

#[test]
fn letters_invalid_arg() {
    let array_letters = letters(Expr::Array(vec![string("hello!")]));
    let bool_letters = letters(boolean(false));
    let int_letters = letters(bin_exp(num(10), BinOp::Divide, num(3)));

    let mut state = State::new();

    assert_eq!(Err(ErrorType::Type), value(&array_letters, &mut state).map_err(kind));
    assert_eq!(Err(ErrorType::Type), value(&bool_letters, &mut state).map_err(kind));
    assert_eq!(Err(ErrorType::Type), value(&int_letters, &mut state).map_err(kind));
}

#[test]
fn if_true() {
    /*
     * let x = true;
     * let y = -1;
     * if (x || false) {
     *   y = 1;
     * }
     */
    let stmt1 = stmt_let("x", boolean(true));
    let stmt2 = stmt_let("y", num(-1));
    let stmt3 = stmt_if(
        bin_exp(var("x"), BinOp::Or, boolean(false)),
        vec![stmt_var_assign("y", num(1))],
        vec![],
    );

    let mut state = State::new();
    run(&stmt1, &mut state).unwrap();
    run(&stmt2, &mut state).unwrap();
    run(&stmt3, &mut state).unwrap();

    assert_eq!(2, state.len());
    assert_eq!(Value::Bool(true), *state.lookup("x").unwrap());
    assert_eq!(Value::Int(1), *state.lookup("y").unwrap());
}

#[test]
fn if_false() {
    /*
     * let x = true;
     * let y = -1;
     * if (x && false) {
     *   y = 1;
     * }
     */
    let stmt1 = stmt_let("x", boolean(true));
    let stmt2 = stmt_let("y", num(-1));
    let stmt3 = stmt_if(
        bin_exp(var("x"), BinOp::And, boolean(false)),
        vec![stmt_var_assign("y", num(1))],
        vec![],
    );

    let mut state = State::new();
    run(&stmt1, &mut state).unwrap();
    run(&stmt2, &mut state).unwrap();
    run(&stmt3, &mut state).unwrap();

    assert_eq!(2, state.len());
    assert_eq!(Value::Bool(true), *state.lookup("x").unwrap());
    assert_eq!(Value::Int(-1), *state.lookup("y").unwrap());
}

#[test]
fn if_true_else() {
    /*
     * let x = true;
     * let y = -1;
     * if (x || false) {
     *   y = 1;
     * } else {
     *   y = 2;
     * }
     */
    let stmt1 = stmt_let("x", boolean(true));
    let stmt2 = stmt_let("y", num(-1));
    let stmt3 = stmt_if(
        bin_exp(var("x"), BinOp::Or, boolean(false)),
        vec![stmt_var_assign("y", num(1))],
        vec![stmt_var_assign("y", num(2))],
    );

    let mut state = State::new();
    run(&stmt1, &mut state).unwrap();
    run(&stmt2, &mut state).unwrap();
    run(&stmt3, &mut state).unwrap();

    assert_eq!(2, state.len());
    assert_eq!(Value::Bool(true), *state.lookup("x").unwrap());
    assert_eq!(Value::Int(1), *state.lookup("y").unwrap());
}

#[test]
fn if_false_else() {
    /*
     * let x = true;
     * let y = -1;
     * if (x && false) {
     *   y = 1;
     * } else {
     *   y = 2;
     * }
     */
    let stmt1 = stmt_let("x", boolean(true));
    let stmt2 = stmt_let("y", num(-1));
    let stmt3 = stmt_if(
        bin_exp(var("x"), BinOp::And, boolean(false)),
        vec![stmt_var_assign("y", num(1))],
        vec![stmt_var_assign("y", num(2))],
    );

    let mut state = State::new();
    run(&stmt1, &mut state).unwrap();
    run(&stmt2, &mut state).unwrap();
    run(&stmt3, &mut state).unwrap();

    assert_eq!(2, state.len());
    assert_eq!(Value::Bool(true), *state.lookup("x").unwrap());
    assert_eq!(Value::Int(2), *state.lookup("y").unwrap());
}

#[test]
fn if_true_else_if2() {
    /*
     * let x = true;
     * let y = -1;
     * if (x || false) {
     *   y = 1;
     * } else if (x && false) {
     *   y = 2;
     * } else if (x) {
     *   y = 3;
     * }
     */
    let stmt1 = stmt_let("x", boolean(true));
    let stmt2 = stmt_let("y", num(-1));
    let stmt3 = stmt_if(
        bin_exp(var("x"), BinOp::Or, boolean(false)),
        vec![stmt_var_assign("y", num(1))],
        vec![
            stmt_if(
                bin_exp(var("x"), BinOp::And, boolean(false)),
                vec![stmt_var_assign("y", num(2))],
                vec![stmt_if(var("x"), vec![stmt_var_assign("y", num(3))], vec![])],
            ),
        ],
    );

    let mut state = State::new();
    run(&stmt1, &mut state).unwrap();
    run(&stmt2, &mut state).unwrap();
    run(&stmt3, &mut state).unwrap();

    assert_eq!(2, state.len());
    assert_eq!(Value::Bool(true), *state.lookup("x").unwrap());
    assert_eq!(Value::Int(1), *state.lookup("y").unwrap());
}

#[test]
fn if_false_else_if_true_else_if() {
    /*
     * let x = true;
     * let y = -1;
     * if (x && false) {
     *   y = 1;
     * } else if (x || false) {
     *   y = 2;
     * } else if (x) {
     *   y = 3;
     * }
     */
    let stmt1 = stmt_let("x", boolean(true));
    let stmt2 = stmt_let("y", num(-1));
    let stmt3 = stmt_if(
        bin_exp(var("x"), BinOp::And, boolean(false)),
        vec![stmt_var_assign("y", num(1))],
        vec![
            stmt_if(
                bin_exp(var("x"), BinOp::Or, boolean(false)),
                vec![stmt_var_assign("y", num(2))],
                vec![stmt_if(var("x"), vec![stmt_var_assign("y", num(3))], vec![])],
            ),
        ],
    );

    let mut state = State::new();
    run(&stmt1, &mut state).unwrap();
    run(&stmt2, &mut state).unwrap();
    run(&stmt3, &mut state).unwrap();

    assert_eq!(2, state.len());
    assert_eq!(Value::Bool(true), *state.lookup("x").unwrap());
    assert_eq!(Value::Int(2), *state.lookup("y").unwrap());
}

#[test]
fn if_false_else_if_false_else_if_true() {
    /*
     * let x = true;
     * let y = -1;
     * if (x && false) {
     *   y = 1;
     * } else if (!x || false) {
     *   y = 2;
     * } else if (x) {
     *   y = 3;
     * }
     */
    let stmt1 = stmt_let("x", boolean(true));
    let stmt2 = stmt_let("y", num(-1));
    let stmt3 = stmt_if(
        bin_exp(var("x"), BinOp::And, boolean(false)),
        vec![stmt_var_assign("y", num(1))],
        vec![
            stmt_if(
                bin_exp(not(var("x")), BinOp::Or, boolean(false)),
                vec![stmt_var_assign("y", num(2))],
                vec![stmt_if(var("x"), vec![stmt_var_assign("y", num(3))], vec![])],
            ),
        ],
    );

    let mut state = State::new();
    run(&stmt1, &mut state).unwrap();
    run(&stmt2, &mut state).unwrap();
    run(&stmt3, &mut state).unwrap();

    assert_eq!(2, state.len());
    assert_eq!(Value::Bool(true), *state.lookup("x").unwrap());
    assert_eq!(Value::Int(3), *state.lookup("y").unwrap());
}

#[test]
fn if_true_else_if2_else() {
    /*
     * let x = true;
     * let y = -1;
     * if (x || false) {
     *   y = 1;
     * } else if (x && false) {
     *   y = 2;
     * } else if (x) {
     *   y = 3;
     * } else {
     *   y = 4;
     * }
     */
    let stmt1 = stmt_let("x", boolean(true));
    let stmt2 = stmt_let("y", num(-1));
    let stmt3 = stmt_if(
        bin_exp(var("x"), BinOp::Or, boolean(false)),
        vec![stmt_var_assign("y", num(1))],
        vec![
            stmt_if(
                bin_exp(var("x"), BinOp::And, boolean(false)),
                vec![stmt_var_assign("y", num(2))],
                vec![
                    stmt_if(
                        var("x"),
                        vec![stmt_var_assign("y", num(3))],
                        vec![stmt_var_assign("y", num(4))],
                    ),
                ],
            ),
        ],
    );

    let mut state = State::new();
    run(&stmt1, &mut state).unwrap();
    run(&stmt2, &mut state).unwrap();
    run(&stmt3, &mut state).unwrap();

    assert_eq!(2, state.len());
    assert_eq!(Value::Bool(true), *state.lookup("x").unwrap());
    assert_eq!(Value::Int(1), *state.lookup("y").unwrap());
}

#[test]
fn if_false_else_if2_true_else() {
    /*
     * let x = true;
     * let y = -1;
     * if (x && false) {
     *   y = 1;
     * } else if (x || false) {
     *   y = 2;
     * } else if (x) {
     *   y = 3;
     * } else {
     *   y = 4;
     * }
     */
    let stmt1 = stmt_let("x", boolean(true));
    let stmt2 = stmt_let("y", num(-1));
    let stmt3 = stmt_if(
        bin_exp(var("x"), BinOp::And, boolean(false)),
        vec![stmt_var_assign("y", num(1))],
        vec![
            stmt_if(
                bin_exp(var("x"), BinOp::Or, boolean(false)),
                vec![stmt_var_assign("y", num(2))],
                vec![
                    stmt_if(
                        var("x"),
                        vec![stmt_var_assign("y", num(3))],
                        vec![stmt_var_assign("y", num(4))],
                    ),
                ],
            ),
        ],
    );

    let mut state = State::new();
    run(&stmt1, &mut state).unwrap();
    run(&stmt2, &mut state).unwrap();
    run(&stmt3, &mut state).unwrap();

    assert_eq!(2, state.len());
    assert_eq!(Value::Bool(true), *state.lookup("x").unwrap());
    assert_eq!(Value::Int(2), *state.lookup("y").unwrap());
}

#[test]
fn if_false_else_if2_false_else_true() {
    /*
     * let x = false;
     * let y = -1;
     * if (x && false) {
     *   y = 1;
     * } else if (x || false) {
     *   y = 2;
     * } else if (x) {
     *   y = 3;
     * } else {
     *   y = 4;
     * }
     */
    let stmt1 = stmt_let("x", boolean(false));
    let stmt2 = stmt_let("y", num(-1));
    let stmt3 = stmt_if(
        bin_exp(var("x"), BinOp::And, boolean(false)),
        vec![stmt_var_assign("y", num(1))],
        vec![
            stmt_if(
                bin_exp(var("x"), BinOp::Or, boolean(false)),
                vec![stmt_var_assign("y", num(2))],
                vec![
                    stmt_if(
                        var("x"),
                        vec![stmt_var_assign("y", num(3))],
                        vec![stmt_var_assign("y", num(4))],
                    ),
                ],
            ),
        ],
    );

    let mut state = State::new();
    run(&stmt1, &mut state).unwrap();
    run(&stmt2, &mut state).unwrap();
    run(&stmt3, &mut state).unwrap();

    assert_eq!(2, state.len());
    assert_eq!(Value::Bool(false), *state.lookup("x").unwrap());
    assert_eq!(Value::Int(4), *state.lookup("y").unwrap());
}

/// The statements of the program that sums up with `sum3` in a loop.
fn sum_program() -> Vec<Statement> {
    /*
     * let total = 0;
     *
     * int sum3(x, y, z) {
     *   return x + y + z;
     * }
     *
     * void range(i) {
     *   while (i >= 0) {
     *     total = total + sum3(i, i + 1, i + 2);
     *     i = i - 1;
     *   }
     * }
     *
     * range(10);
     */
    let let_total = stmt_let("total", num(0));
    let sum3 = Statement::Defun(
        Type::Int,
        String::from("sum3"),
        vec![String::from("x"), String::from("y"), String::from("z")],
        vec![Statement::Return(bin_exp(
            var("x"),
            BinOp::Plus,
            bin_exp(var("y"), BinOp::Plus, var("z")),
        ))],
    );
    let range = Statement::Defun(
        Type::Void,
        String::from("range"),
        vec![String::from("i")],
        vec![Statement::While(
            bin_exp(var("i"), BinOp::GreaterOrEqual, num(0)),
            vec![
                stmt_var_assign(
                    "total",
                    bin_exp(
                        var("total"),
                        BinOp::Plus,
                        call(
                            "sum3",
                            vec![
                                var("i"),
                                bin_exp(var("i"), BinOp::Plus, num(1)),
                                bin_exp(var("i"), BinOp::Plus, num(2)),
                            ],
                        ),
                    ),
                ),
                stmt_var_assign("i", bin_exp(var("i"), BinOp::Minus, num(1))),
            ],
        )],
    );
    let range_call = Statement::VoidCall(String::from("range"), vec![num(10)]);
    vec![let_total, sum3, range, range_call]
}

#[test]
fn complex() {
    let program = sum_program();

    let mut state = State::new();
    for stmt in &program {
        run(stmt, &mut state).unwrap();
    }

    assert_eq!(1, state.len());
    assert_eq!(Value::Int(198), *state.lookup("total").unwrap());
}

#[test]
fn loop_runs_out_of_fuel() {
    let program = sum_program();
    let mut state = State::new();
    let mut stream = Stream::new();
    for stmt in &program[..3] {
        stmt.eval(&mut state, &mut stream, 5).unwrap();
    }
    // The loop needs eleven passes.
    assert!(matches!(program[3].eval(&mut state, &mut stream, 5), Err(Halt::OutOfFuel)));
    // The scope of the call was closed all the same.
    assert_eq!(1, state.len());
    let endless = Statement::While(boolean(true), vec![]);
    assert!(matches!(run(&endless, &mut state), Err(Halt::OutOfFuel)));
}

#[test]
fn arithmetic_values() {
    let mut state = State::new();
    let cases = [
        (7, BinOp::Plus, 2, 9),
        (7, BinOp::Minus, 9, -2),
        (7, BinOp::Times, -3, -21),
        (7, BinOp::Divide, 2, 3),
        (-7, BinOp::Divide, 2, -3),
        (7, BinOp::Divide, -2, -3),
        (-7, BinOp::Divide, -2, 3),
        (7, BinOp::Modulus, 2, 1),
        (-7, BinOp::Modulus, 2, -1),
        (7, BinOp::Modulus, -2, 1),
        (-7, BinOp::Modulus, -2, -1),
        (i64::MIN, BinOp::Divide, 1, i64::MIN),
        (i64::MAX, BinOp::Plus, 0, i64::MAX),
    ];
    for (a, op, b, expected) in cases {
        assert_eq!(Value::Int(expected), value(&bin_exp(num(a), op, num(b)), &mut state).unwrap());
    }
}

#[test]
fn arithmetic_faults() {
    let mut state = State::new();
    let cases = [
        (1, BinOp::Divide, 0),
        (1, BinOp::Modulus, 0),
        (i64::MIN, BinOp::Divide, -1),
        (i64::MIN, BinOp::Modulus, -1),
        (i64::MAX, BinOp::Plus, 1),
        (i64::MIN, BinOp::Minus, 1),
        (i64::MAX, BinOp::Times, 2),
    ];
    for (a, op, b) in cases {
        assert!(matches!(
            value(&bin_exp(num(a), op, num(b)), &mut state),
            Err(Halt::Arithmetic)
        ));
    }
}

#[test]
fn comparisons() {
    let mut state = State::new();
    let cases = [
        (BinOp::GreaterOrEqual, 2, 2, true),
        (BinOp::GreaterOrEqual, 1, 2, false),
        (BinOp::GreaterThan, 2, 2, false),
        (BinOp::GreaterThan, 3, 2, true),
        (BinOp::LessOrEqual, 2, 2, true),
        (BinOp::LessOrEqual, 3, 2, false),
        (BinOp::LessThan, 2, 2, false),
        (BinOp::LessThan, -3, 2, true),
        (BinOp::Equal, 2, 2, true),
        (BinOp::Equal, 2, 3, false),
        (BinOp::NotEqual, 2, 2, false),
        (BinOp::NotEqual, 2, 3, true),
    ];
    for (op, a, b, expected) in cases {
        assert_eq!(
            Value::Bool(expected),
            value(&bin_exp(num(a), op, num(b)), &mut state).unwrap()
        );
    }
    assert_eq!(
        Value::Bool(true),
        value(&bin_exp(string("a"), BinOp::Equal, string("a")), &mut state).unwrap()
    );
    assert_eq!(
        Value::Bool(true),
        value(&bin_exp(string("a"), BinOp::NotEqual, string("b")), &mut state).unwrap()
    );
    assert_eq!(
        Value::Bool(false),
        value(&bin_exp(boolean(true), BinOp::Equal, boolean(false)), &mut state).unwrap()
    );
}

#[test]
fn operators_check_their_operands() {
    let mut state = State::new();
    let wrong = [
        bin_exp(num(1), BinOp::And, boolean(true)),
        bin_exp(boolean(true), BinOp::Or, num(1)),
        bin_exp(num(1), BinOp::Equal, boolean(true)),
        bin_exp(Expr::Array(vec![]), BinOp::Equal, Expr::Array(vec![])),
        bin_exp(string("a"), BinOp::NotEqual, num(1)),
        bin_exp(string("a"), BinOp::LessThan, num(1)),
        bin_exp(num(1), BinOp::GreaterThan, boolean(true)),
        bin_exp(num(1), BinOp::Plus, string("a")),
        bin_exp(boolean(true), BinOp::Divide, num(0)),
        bin_exp(Expr::Array(vec![]), BinOp::Concat, num(1)),
        bin_exp(num(1), BinOp::Concat, Expr::Array(vec![])),
        not(num(1)),
    ];
    for exp in wrong {
        assert_eq!(Err(ErrorType::Type), value(&exp, &mut state).map_err(kind));
    }
    assert_eq!(Value::Bool(false), value(&not(boolean(true)), &mut state).unwrap());
}

#[test]
fn both_operands_are_evaluated() {
    // `false && f()` still calls `f`, which is not defined.
    let mut state = State::new();
    let exp = bin_exp(boolean(false), BinOp::And, call("f", vec![]));
    assert_eq!(Err(ErrorType::UndefinedFunction), value(&exp, &mut state).map_err(kind));
    let exp = bin_exp(boolean(true), BinOp::Or, var("nowhere"));
    assert_eq!(Err(ErrorType::UndefinedVariable), value(&exp, &mut state).map_err(kind));
}

#[test]
fn concat_appends() {
    let mut state = State::new();
    let exp = bin_exp(
        Expr::Array(vec![num(1), num(2)]),
        BinOp::Concat,
        Expr::Array(vec![boolean(true)]),
    );
    assert_eq!(
        Value::Array(vec![Value::Int(1), Value::Int(2), Value::Bool(true)]),
        value(&exp, &mut state).unwrap()
    );
}

fn ints(numbers: &[i64]) -> Value {
    Value::Array(numbers.iter().map(|n| Value::Int(*n)).collect())
}

fn range(a: i64, b: i64) -> Expr {
    Expr::Range(Box::new(num(a)), Box::new(num(b)))
}

fn step(a: i64, b: i64, s: i64) -> Expr {
    Expr::Step(Box::new(num(a)), Box::new(num(b)), Box::new(num(s)))
}

#[test]
fn range_goes_both_ways() {
    let mut state = State::new();
    assert_eq!(ints(&[1, 2, 3, 4]), value(&range(1, 4), &mut state).unwrap());
    assert_eq!(ints(&[4, 3, 2, 1]), value(&range(4, 1), &mut state).unwrap());
    assert_eq!(ints(&[-1, 0, 1]), value(&range(-1, 1), &mut state).unwrap());
    assert_eq!(ints(&[5]), value(&range(5, 5), &mut state).unwrap());
    assert_eq!(
        ints(&[i64::MAX - 1, i64::MAX]),
        value(&range(i64::MAX - 1, i64::MAX), &mut state).unwrap()
    );
    assert_eq!(
        ints(&[i64::MIN + 1, i64::MIN]),
        value(&range(i64::MIN + 1, i64::MIN), &mut state).unwrap()
    );
    let wrong = Expr::Range(Box::new(boolean(true)), Box::new(num(1)));
    assert_eq!(Err(ErrorType::Type), value(&wrong, &mut state).map_err(kind));
    let wrong = Expr::Range(Box::new(num(1)), Box::new(string("2")));
    assert_eq!(Err(ErrorType::Type), value(&wrong, &mut state).map_err(kind));
}

#[test]
fn step_stops_at_or_before_the_end() {
    let mut state = State::new();
    assert_eq!(ints(&[0, 2, 4, 6]), value(&step(0, 6, 2), &mut state).unwrap());
    assert_eq!(ints(&[0, 2, 4, 6]), value(&step(0, 7, 2), &mut state).unwrap());
    assert_eq!(ints(&[10, 7, 4, 1]), value(&step(10, 0, -3), &mut state).unwrap());
    assert_eq!(ints(&[10, 7, 4, 1]), value(&step(10, 1, -3), &mut state).unwrap());
    assert_eq!(ints(&[3]), value(&step(3, 3, 5), &mut state).unwrap());
    assert_eq!(ints(&[3]), value(&step(3, 3, -5), &mut state).unwrap());
    assert_eq!(ints(&[1]), value(&step(1, 2, 100), &mut state).unwrap());
    assert_eq!(
        ints(&[i64::MAX - 3, i64::MAX - 1]),
        value(&step(i64::MAX - 3, i64::MAX, 2), &mut state).unwrap()
    );
    assert_eq!(
        ints(&[i64::MIN + 3, i64::MIN + 1]),
        value(&step(i64::MIN + 3, i64::MIN, -2), &mut state).unwrap()
    );
}

#[test]
fn step_refuses_what_leads_nowhere() {
    let mut state = State::new();
    assert_eq!(Err(ErrorType::Step), value(&step(0, 6, 0), &mut state).map_err(kind));
    assert_eq!(Err(ErrorType::Step), value(&step(3, 3, 0), &mut state).map_err(kind));
    assert_eq!(Err(ErrorType::Step), value(&step(0, 6, -1), &mut state).map_err(kind));
    assert_eq!(Err(ErrorType::Step), value(&step(6, 0, 1), &mut state).map_err(kind));
    let wrong = Expr::Step(Box::new(num(0)), Box::new(num(1)), Box::new(boolean(true)));
    assert_eq!(Err(ErrorType::Type), value(&wrong, &mut state).map_err(kind));
}

#[test]
fn length_counts_bytes_of_a_string() {
    let mut state = State::new();
    assert_eq!(Value::Int(0), value(&length(string("")), &mut state).unwrap());
    assert_eq!(Value::Int(2), value(&length(string("\u{e9}")), &mut state).unwrap());
    assert_eq!(Value::Int(8), value(&length(string("a\u{20ac}\u{1F600}")), &mut state).unwrap());
    assert_eq!(
        Value::Array(vec![val_string("a"), val_string("\u{20ac}")]),
        value(&letters(string("a\u{20ac}")), &mut state).unwrap()
    );
}

#[test]
fn variables() {
    let mut state = State::new();
    assert_eq!(Err(ErrorType::UndefinedVariable), value(&var("x"), &mut state).map_err(kind));
    assert_eq!(
        Err(ErrorType::UndefinedVariable),
        run(&stmt_var_assign("x", num(1)), &mut state).map_err(kind)
    );
    run(&stmt_let("x", num(1)), &mut state).unwrap();
    run(&stmt_let("x", boolean(true)), &mut state).unwrap();
    assert_eq!(Value::Bool(true), value(&var("x"), &mut state).unwrap());
    assert_eq!(1, state.len());
}

fn nested_array() -> Statement {
    // let a = [1, [2, [3, 4]], 5];
    stmt_let(
        "a",
        Expr::Array(vec![
            num(1),
            Expr::Array(vec![num(2), Expr::Array(vec![num(3), num(4)])]),
            num(5),
        ]),
    )
}

#[test]
fn array_element_assign() {
    let mut state = State::new();
    run(&nested_array(), &mut state).unwrap();
    // a[0] = true;
    let stmt = Statement::ArrayElemAssign(String::from("a"), num(0), vec![], boolean(true));
    assert_eq!(None, run(&stmt, &mut state).unwrap());
    // a[1][1][0] = "x";
    let stmt =
        Statement::ArrayElemAssign(String::from("a"), num(1), vec![num(1), num(0)], string("x"));
    run(&stmt, &mut state).unwrap();
    assert_eq!(
        Value::Array(vec![
            Value::Bool(true),
            Value::Array(vec![Value::Int(2), Value::Array(vec![val_string("x"), Value::Int(4)])]),
            Value::Int(5),
        ]),
        *state.lookup("a").unwrap()
    );
    assert_eq!(1, state.len());
}

#[test]
fn array_element_assign_errors() {
    let mut state = State::new();
    run(&nested_array(), &mut state).unwrap();
    run(&stmt_let("n", num(1)), &mut state).unwrap();
    let cases = [
        (
            Statement::ArrayElemAssign(String::from("b"), num(0), vec![], num(0)),
            ErrorType::UndefinedVariable,
        ),
        (Statement::ArrayElemAssign(String::from("n"), num(0), vec![], num(0)), ErrorType::Type),
        (
            Statement::ArrayElemAssign(String::from("a"), boolean(true), vec![], num(0)),
            ErrorType::Type,
        ),
        (
            Statement::ArrayElemAssign(String::from("a"), num(3), vec![], num(0)),
            ErrorType::ArrayIndexOutOfBounds,
        ),
        (
            Statement::ArrayElemAssign(String::from("a"), num(-1), vec![], num(0)),
            ErrorType::ArrayIndexOutOfBounds,
        ),
        (
            Statement::ArrayElemAssign(String::from("a"), num(0), vec![num(0)], num(0)),
            ErrorType::Type,
        ),
        (
            Statement::ArrayElemAssign(String::from("a"), num(1), vec![num(2)], num(0)),
            ErrorType::ArrayIndexOutOfBounds,
        ),
        (
            Statement::ArrayElemAssign(String::from("a"), num(1), vec![num(1), num(-1)], num(0)),
            ErrorType::ArrayIndexOutOfBounds,
        ),
        (Statement::Delete(String::from("b"), num(0), vec![]), ErrorType::UndefinedVariable),
        (Statement::Delete(String::from("n"), num(0), vec![]), ErrorType::Type),
        (Statement::Delete(String::from("a"), num(3), vec![]), ErrorType::ArrayIndexOutOfBounds),
        (Statement::Delete(String::from("a"), num(-1), vec![]), ErrorType::ArrayIndexOutOfBounds),
        (Statement::Delete(String::from("a"), num(2), vec![num(0)]), ErrorType::Type),
        (
            Statement::Delete(String::from("a"), num(1), vec![num(1), num(2)]),
            ErrorType::ArrayIndexOutOfBounds,
        ),
    ];
    for (stmt, expected) in cases {
        assert_eq!(Err(expected), run(&stmt, &mut state).map_err(kind));
    }
    // Nothing was changed.
    let mut fresh = State::new();
    run(&nested_array(), &mut fresh).unwrap();
    assert_eq!(fresh.lookup("a"), state.lookup("a"));
}

#[test]
fn delete_removes_a_cell() {
    let mut state = State::new();
    run(&nested_array(), &mut state).unwrap();
    // delete a[1][1][0];
    run(&Statement::Delete(String::from("a"), num(1), vec![num(1), num(0)]), &mut state).unwrap();
    assert_eq!(
        Value::Array(vec![
            Value::Int(1),
            Value::Array(vec![Value::Int(2), Value::Array(vec![Value::Int(4)])]),
            Value::Int(5),
        ]),
        *state.lookup("a").unwrap()
    );
    // delete a[0];
    run(&Statement::Delete(String::from("a"), num(0), vec![]), &mut state).unwrap();
    assert_eq!(Value::Int(2), value(&length(var("a")), &mut state).unwrap());
    assert_eq!(Value::Int(5), value(&index("a", num(1), vec![]), &mut state).unwrap());
}

#[test]
fn for_binds_each_item() {
    // let total = 0; for x in [1, 2, 3] { total = total + x; }
    let mut state = State::new();
    run(&stmt_let("total", num(0)), &mut state).unwrap();
    let stmt = Statement::For(
        String::from("x"),
        Expr::Array(vec![num(1), num(2), num(3)]),
        vec![stmt_var_assign("total", bin_exp(var("total"), BinOp::Plus, var("x")))],
    );
    assert_eq!(None, run(&stmt, &mut state).unwrap());
    assert_eq!(Value::Int(6), *state.lookup("total").unwrap());
    assert_eq!(Value::Int(3), *state.lookup("x").unwrap());
    let wrong = Statement::For(String::from("x"), num(3), vec![]);
    assert_eq!(Err(ErrorType::Type), run(&wrong, &mut state).map_err(kind));
}

#[test]
fn return_bubbles_up() {
    let mut state = State::new();
    // for x in [1, 2, 3] { if (x == 2) { return x * 10; } }
    let stmt = Statement::For(
        String::from("x"),
        Expr::Array(vec![num(1), num(2), num(3)]),
        vec![stmt_if(
            bin_exp(var("x"), BinOp::Equal, num(2)),
            vec![Statement::Return(bin_exp(var("x"), BinOp::Times, num(10)))],
            vec![],
        )],
    );
    assert_eq!(Some(Value::Int(20)), run(&stmt, &mut state).unwrap());
    assert_eq!(Value::Int(2), *state.lookup("x").unwrap());
    // while (true) { return 1; }
    let stmt = Statement::While(boolean(true), vec![Statement::Return(num(1))]);
    assert_eq!(Some(Value::Int(1)), run(&stmt, &mut state).unwrap());
}

#[test]
fn conditions_must_be_boolean() {
    let mut state = State::new();
    let wrong = stmt_if(num(1), vec![], vec![]);
    assert_eq!(Err(ErrorType::Type), run(&wrong, &mut state).map_err(kind));
    let wrong = Statement::While(string("x"), vec![]);
    assert_eq!(Err(ErrorType::Type), run(&wrong, &mut state).map_err(kind));
}

fn defun(t: Type, name: &str, params: &[&str], body: Vec<Statement>) -> Statement {
    Statement::Defun(t, String::from(name), params.iter().map(|p| String::from(*p)).collect(), body)
}

#[test]
fn function_definitions() {
    let mut state = State::new();
    run(&defun(Type::Int, "one", &[], vec![Statement::Return(num(1))]), &mut state).unwrap();
    // A second definition is refused and changes nothing.
    assert_eq!(
        Err(ErrorType::RedefinedFunction),
        run(&defun(Type::Int, "one", &[], vec![Statement::Return(num(2))]), &mut state)
            .map_err(kind)
    );
    assert_eq!(Value::Int(1), value(&call("one", vec![]), &mut state).unwrap());
    assert_eq!(0, state.len());
}

#[test]
fn function_calls_check_arity_and_type() {
    let mut state = State::new();
    run(&defun(Type::Int, "id", &["x"], vec![Statement::Return(var("x"))]), &mut state).unwrap();
    run(&defun(Type::Int, "none", &[], vec![]), &mut state).unwrap();
    run(&defun(Type::Void, "nothing", &[], vec![]), &mut state).unwrap();
    run(&defun(Type::Void, "something", &[], vec![Statement::Return(num(1))]), &mut state)
        .unwrap();
    assert_eq!(Value::Int(5), value(&call("id", vec![num(5)]), &mut state).unwrap());
    // A value of another type than declared.
    assert_eq!(
        Err(ErrorType::Type),
        value(&call("id", vec![boolean(true)]), &mut state).map_err(kind),
    );
    // No value where one is declared.
    assert_eq!(Err(ErrorType::Type), value(&call("none", vec![]), &mut state).map_err(kind));
    // A value from a function that is declared to give none.
    assert_eq!(Err(ErrorType::Type), value(&call("something", vec![]), &mut state).map_err(kind));
    // A call that gives nothing, used as an expression.
    assert_eq!(Err(ErrorType::Type), value(&call("nothing", vec![]), &mut state).map_err(kind));
    assert_eq!(
        None,
        run(&Statement::VoidCall(String::from("nothing"), vec![]), &mut state).unwrap()
    );
    assert_eq!(Err(ErrorType::Argument), value(&call("id", vec![]), &mut state).map_err(kind));
    assert_eq!(
        Err(ErrorType::Argument),
        value(&call("id", vec![num(1), num(2)]), &mut state).map_err(kind)
    );
    assert_eq!(
        Err(ErrorType::UndefinedFunction),
        value(&call("unknown", vec![]), &mut state).map_err(kind)
    );
    // Every call closed its scope.
    assert_eq!(0, state.len());
}

#[test]
fn functions_see_their_own_scope_and_the_global_one() {
    let mut state = State::new();
    run(&stmt_let("g", num(1)), &mut state).unwrap();
    // int inner() { return secret; }
    run(&defun(Type::Int, "inner", &[], vec![Statement::Return(var("secret"))]), &mut state)
        .unwrap();
    // int outer(secret) { g = g + secret; let g = 100; return inner(); }
    run(
        &defun(
            Type::Int,
            "outer",
            &["secret"],
            vec![
                stmt_var_assign("g", bin_exp(var("g"), BinOp::Plus, var("secret"))),
                stmt_let("g", num(100)),
                Statement::Return(call("inner", vec![])),
            ],
        ),
        &mut state,
    )
    .unwrap();
    // The callee does not see the caller's `secret`.
    assert_eq!(
        Err(ErrorType::UndefinedVariable),
        value(&call("outer", vec![num(41)]), &mut state).map_err(kind)
    );
    // The assignment went to the global `g`, the `let` to the local scope.
    assert_eq!(Value::Int(42), *state.lookup("g").unwrap());
    assert_eq!(1, state.len());
}

#[test]
fn recursion() {
    // int fact(n) { if (n <= 1) { return 1; } return n * fact(n - 1); }
    let mut state = State::new();
    run(
        &defun(
            Type::Int,
            "fact",
            &["n"],
            vec![
                stmt_if(
                    bin_exp(var("n"), BinOp::LessOrEqual, num(1)),
                    vec![Statement::Return(num(1))],
                    vec![],
                ),
                Statement::Return(bin_exp(
                    var("n"),
                    BinOp::Times,
                    call("fact", vec![bin_exp(var("n"), BinOp::Minus, num(1))]),
                )),
            ],
        ),
        &mut state,
    )
    .unwrap();
    assert_eq!(Value::Int(3628800), value(&call("fact", vec![num(10)]), &mut state).unwrap());
    let mut stream = Stream::new();
    assert!(matches!(
        call("fact", vec![num(10)]).eval(&mut state, &mut stream, 3),
        Err(Halt::OutOfFuel)
    ));
    assert_eq!(0, state.len());
}

#[test]
fn print_emits_output() {
    let mut state = State::new();
    let mut stream = Stream::new();
    Statement::Print(Expr::Array(vec![num(1), string("a")]))
        .eval(&mut state, &mut stream, FUEL)
        .unwrap();
    Statement::PrintLine(bin_exp(num(1), BinOp::Plus, num(2)))
        .eval(&mut state, &mut stream, FUEL)
        .unwrap();
    assert_eq!(Some(Event::Output(String::from("[1, \"a\"]"))), stream.get_event());
    assert_eq!(Some(Event::Output(String::from("3\n"))), stream.get_event());
    assert_eq!(None, stream.get_event());
}

#[test]
fn readline_takes_a_line() {
    let mut state = State::new();
    let mut stream = Stream::new();
    stream.write_input("first\n");
    stream.write_input("second");
    stream.write_input("\n");
    assert_eq!(val_string("first"), Expr::ReadLine.eval(&mut state, &mut stream, FUEL).unwrap());
    assert_eq!(val_string("second"), Expr::ReadLine.eval(&mut state, &mut stream, FUEL).unwrap());
    assert_eq!(val_string(""), Expr::ReadLine.eval(&mut state, &mut stream, FUEL).unwrap());
    assert!(matches!(
        Expr::ReadLine.eval(&mut state, &mut stream, FUEL),
        Err(Halt::NeedsInput)
    ));
    for _ in 0..4 {
        assert_eq!(Some(Event::NeedsInput), stream.get_event());
    }
    assert_eq!(None, stream.get_event());
}

/// The message of the runtime error of a halt.
fn message(r: Result<Value, Halt>) -> String {
    match r {
        Err(Halt::Error(e)) => e.message,
        other => panic!("no runtime error: {:?}", other),
    }
}

#[test]
fn error_messages_of_expressions() {
    let mut state = State::new();
    run(&stmt_let("a", Expr::Array(vec![num(1), Expr::Array(vec![])])), &mut state).unwrap();
    run(&stmt_let("n", num(1)), &mut state).unwrap();
    let cases = [
        (var("x"), "The variable `x` is not defined, so it can't be used in an expression"),
        (index("x", num(0), vec![]), "The variable `x` is not defined, so x[0] doesn't make sense"),
        (index("n", num(0), vec![]), "`n` is an int, so `n[0]` doesn't make sense"),
        (
            index("a", bin_exp(num(1), BinOp::Plus, num(1)), vec![]),
            "`1 + 1` is 2 and the array has 2 elements in it, so `a[1 + 1]` doesn't make sense",
        ),
        (
            index("a", num(1), vec![num(-1)]),
            "`-1` is -1 and the array has 0 elements in it, so `a[1][-1]` doesn't make sense",
        ),
        (index("a", boolean(true), vec![]), "`true` is a boolean, so `a[true]` doesn't make sense"),
        (
            index("a", num(0), vec![num(0)]),
            "a cell of the array is an int, so `a[0][0]` doesn't make sense",
        ),
        (not(num(1)), "`1` is not a boolean, so `!1` doesn't make sense"),
        (
            not(bin_exp(num(1), BinOp::Plus, num(2))),
            "`1 + 2` is not a boolean, so `!(1 + 2)` doesn't make sense",
        ),
        (length(num(1)), "`1` is an int, so `length(1)` doesn't make sense"),
        (letters(var("a")), "`a` is an array, so `letters(a)` doesn't make sense"),
        (
            Expr::Range(Box::new(var("a")), Box::new(num(1))),
            "`a` is not an int, so `range(a, 1)` doesn't make sense",
        ),
        (
            step(0, 6, 0),
            "In `step(0, 6, 0)` the start is 0, the end is 6 and the step is 0; stepping by 0 will never get anywhere",
        ),
        (
            step(0, 6, -2),
            "In `step(0, 6, -2)` the start is 0, the end is 6 and the step is -2; stepping down will never reach the end",
        ),
        (
            step(6, 0, 2),
            "In `step(6, 0, 2)` the start is 6, the end is 0 and the step is 2; stepping up will never reach the end",
        ),
        (
            bin_exp(num(1), BinOp::And, boolean(true)),
            "`1` is not a boolean, so `1 && true` is invalid",
        ),
        (
            bin_exp(boolean(true), BinOp::Or, var("n")),
            "`1` is not a boolean, so `true || n` is invalid",
        ),
        (
            bin_exp(num(1), BinOp::Equal, boolean(true)),
            "`1` is an int and `true` is a boolean, so `1 == true` doesn't make sense",
        ),
        (
            bin_exp(num(1), BinOp::Plus, string("a")),
            "`\"a\"` is not an int, so `1 + \"a\"` is invalid",
        ),
        (bin_exp(var("a"), BinOp::Concat, num(1)), "`1` is not an array, so `a ++ 1` is invalid"),
        (call("f", vec![]), "The function `f` has not been defined, so it can't be called"),
    ];
    for (exp, expected) in cases {
        assert_eq!(expected, message(value(&exp, &mut state)));
    }
}

#[test]
fn error_messages_of_calls() {
    let mut state = State::new();
    run(&defun(Type::Int, "id", &["x"], vec![Statement::Return(var("x"))]), &mut state).unwrap();
    run(&defun(Type::Str, "none", &[], vec![]), &mut state).unwrap();
    run(&defun(Type::Void, "nothing", &[], vec![]), &mut state).unwrap();
    let cases = [
        (call("id", vec![]), "The function id takes 1 arguments, but 0 were given"),
        (
            call("id", vec![boolean(true)]),
            "The function id is supposed to return an int, but instead it returns a boolean",
        ),
        (
            call("none", vec![]),
            "The function none is supposed to return a string, but instead it returns nothing",
        ),
        (
            call("nothing", vec![]),
            "The function nothing doesn't return anything, so nothing() doesn't make sense",
        ),
    ];
    for (exp, expected) in cases {
        assert_eq!(expected, message(value(&exp, &mut state)));
    }
}

#[test]
fn error_messages_of_statements() {
    let mut state = State::new();
    run(&stmt_let("n", num(1)), &mut state).unwrap();
    run(&defun(Type::Void, "f", &[], vec![]), &mut state).unwrap();
    let cases = [
        (
            stmt_var_assign("x", num(1)),
            "The variable `x` has not been declared, so it can't have a value assigned to it",
        ),
        (
            defun(Type::Void, "f", &[], vec![]),
            "The function f has already been defined, so it can't be defined again",
        ),
        (stmt_if(num(1), vec![], vec![]), "`1` is an int, so `if (1) ...` doesn't make sense"),
        (
            Statement::While(var("n"), vec![]),
            "`n` is an int, so `while (n) ...` doesn't make sense",
        ),
        (
            Statement::For(String::from("x"), var("n"), vec![]),
            "`n` is an int, so `for x in n ...` doesn't make sense",
        ),
        (
            Statement::ArrayElemAssign(String::from("n"), num(0), vec![], num(1)),
            "`n` is an int, so `n[0] = 1;` doesn't make sense",
        ),
        (
            Statement::Delete(String::from("x"), num(0), vec![]),
            "The variable `x` is not defined, so delete x[0]; doesn't make sense",
        ),
    ];
    for (stmt, expected) in cases {
        match run(&stmt, &mut state) {
            Err(Halt::Error(e)) => assert_eq!(expected, e.message),
            other => panic!("{:?}", other),
        }
    }
}
