use pal::ast::{BinOp, Expr, Statement, Type, Value};
use pal::error::{Error, ErrorType};

fn d_int(i: i64) -> Expr {
    Expr::Value(Value::Int(i))
}

fn d_boolean(b: bool) -> Expr {
    Expr::Value(Value::Bool(b))
}

fn d_var(name: &str) -> Expr {
    Expr::Var(String::from(name))
}

fn d_bin(l: Expr, op: BinOp, r: Expr) -> Expr {
    Expr::BinExp(Box::new(l), op, Box::new(r))
}

fn d_call(name: &str, args: Vec<Expr>) -> Expr {
    Expr::Call(String::from(name), args)
}

#[test]
fn display_arith_expr() {
    let exp = d_bin(
        d_bin(d_int(100), BinOp::Divide, d_bin(d_int(-12), BinOp::Divide, d_int(6))),
        BinOp::Equal,
        d_bin(
            d_bin(d_int(4), BinOp::Times, d_int(7)),
            BinOp::Modulus,
            d_bin(d_int(-6), BinOp::Plus, d_int(3)),
        ),
    );

    assert_eq!("100 / (-12 / 6) == 4 * 7 % (-6 + 3)", exp.to_string());
}

#[test]
fn display_bool_expr() {
    let exp = d_bin(
        d_bin(
            d_boolean(true),
            BinOp::Or,
            d_bin(d_var("every_little_thing"), BinOp::Or, d_boolean(false)),
        ),
        BinOp::NotEqual,
        d_bin(
            d_bin(d_var("x"), BinOp::And, d_var("y")),
            BinOp::And,
            d_bin(d_boolean(true), BinOp::Or, d_var("is_gonna_be_all_right")),
        ),
    );

    assert_eq!(
        "(true || (every_little_thing || false)) != (x && y && (true || is_gonna_be_all_right))",
        exp.to_string()
    );
}

#[test]
fn display_array() {
    let exp = Expr::Array(vec![d_int(-12), d_boolean(false), Expr::Array(vec![d_var("y")])]);

    assert_eq!("[-12, false, [y]]", exp.to_string());
}

#[test]
fn display_for() {
    let stmt = Statement::For(
        String::from("x"),
        d_call("step", vec![d_int(0), d_var("y"), d_int(2)]),
        vec![Statement::PrintLine(d_var("x"))],
    );

    let string = "for x in step(0, y, 2) {\n    print_line x;\n}\n";
    assert_eq!(string, stmt.to_string());
}

#[test]
fn display_while() {
    let stmt = Statement::While(
        d_bin(d_var("x"), BinOp::GreaterThan, d_int(0)),
        vec![Statement::PrintLine(d_bin(d_var("x"), BinOp::Times, d_var("x")))],
    );

    let string = "while (x > 0) {\n    print_line x * x;\n}\n";
    assert_eq!(string, stmt.to_string());
}

#[test]
fn display_complex_function() {
    let stmt = Statement::Defun(
        Type::Void,
        String::from("range"),
        vec![String::from("i")],
        vec![Statement::While(
            d_bin(d_var("i"), BinOp::GreaterOrEqual, d_int(0)),
            vec![
                Statement::VarAssign(
                    String::from("total"),
                    d_bin(
                        d_var("total"),
                        BinOp::Plus,
                        d_call(
                            "sum3",
                            vec![
                                d_var("i"),
                                d_bin(d_var("i"), BinOp::Plus, d_int(1)),
                                d_bin(d_var("i"), BinOp::Plus, d_int(2)),
                            ],
                        ),
                    ),
                ),
                Statement::VarAssign(String::from("i"), d_bin(d_var("i"), BinOp::Minus, d_int(1))),
            ],
        )],
    );

    let string = "void range(i) {\n    while (i >= 0) {\n        total = total + sum3(i, i + 1, i + 2);\n        i = i - 1;\n    }\n}\n";
    assert_eq!(string, stmt.to_string());
}

#[test]
fn display_values() {
    assert_eq!("0", Value::Int(0).to_string());
    assert_eq!("7", Value::Int(7).to_string());
    assert_eq!("-1", Value::Int(-1).to_string());
    assert_eq!("1234567890", Value::Int(1234567890).to_string());
    assert_eq!("9223372036854775807", Value::Int(i64::MAX).to_string());
    assert_eq!("-9223372036854775808", Value::Int(i64::MIN).to_string());
    assert_eq!("true", Value::Bool(true).to_string());
    assert_eq!("false", Value::Bool(false).to_string());
    assert_eq!("\"hello!\"", Value::Str(String::from("hello!")).to_string());
    assert_eq!("\"\"", Value::Str(String::new()).to_string());
    assert_eq!("[]", Value::Array(vec![]).to_string());
    assert_eq!(
        "[1, false, [\"hello!\", 0]]",
        Value::Array(vec![
            Value::Int(1),
            Value::Bool(false),
            Value::Array(vec![Value::Str(String::from("hello!")), Value::Int(0)]),
        ])
        .to_string()
    );
}

#[test]
fn display_appends_to_what_is_there() {
    let mut out = String::from("x = ");
    Value::Int(-36).fmt(&mut out);
    assert_eq!("x = -36", out);
    let mut out = String::from("> ");
    d_bin(d_var("a"), BinOp::Concat, d_var("b")).fmt(&mut out);
    assert_eq!("> a ++ b", out);
}

#[test]
fn display_types_and_operators() {
    assert_eq!("array", Type::Array.to_string());
    assert_eq!("boolean", Type::Bool.to_string());
    assert_eq!("int", Type::Int.to_string());
    assert_eq!("string", Type::Str.to_string());
    assert_eq!("void", Type::Void.to_string());
    assert_eq!("an array", Type::Array.as_string_with_article());
    assert_eq!("a boolean", Type::Bool.as_string_with_article());
    assert_eq!("an int", Type::Int.as_string_with_article());
    assert_eq!("a string", Type::Str.as_string_with_article());
    assert_eq!("nothing", Type::Void.as_string_with_article());
    let ops = [
        (BinOp::And, "&&"),
        (BinOp::Or, "||"),
        (BinOp::Equal, "=="),
        (BinOp::NotEqual, "!="),
        (BinOp::GreaterOrEqual, ">="),
        (BinOp::GreaterThan, ">"),
        (BinOp::LessOrEqual, "<="),
        (BinOp::LessThan, "<"),
        (BinOp::Plus, "+"),
        (BinOp::Minus, "-"),
        (BinOp::Times, "*"),
        (BinOp::Divide, "/"),
        (BinOp::Modulus, "%"),
        (BinOp::Concat, "++"),
    ];
    for (op, text) in ops {
        assert_eq!(text, op.to_string());
    }
}

#[test]
fn display_value_types() {
    assert_eq!("an array", Value::Array(vec![]).type_string_with_article());
    assert_eq!("a boolean", Value::Bool(true).type_string_with_article());
    assert_eq!("an int", Value::Int(1).type_string_with_article());
    assert_eq!("a string", Value::Str(String::new()).type_string_with_article());
    assert!(Value::Int(1).is_a(&Type::Int));
    assert!(!Value::Int(1).is_a(&Type::Bool));
    assert!(Value::Array(vec![]).is_a(&Type::Array));
    assert!(Value::Str(String::new()).is_a(&Type::Str));
    assert!(Value::Bool(false).is_a(&Type::Bool));
    assert!(!Value::Bool(false).is_a(&Type::Void));
}

#[test]
fn display_parenthesizes_by_precedence() {
    // A left operand is wrapped only if it binds looser than the operator.
    let left = d_bin(d_bin(d_int(1), BinOp::Minus, d_int(2)), BinOp::Minus, d_int(3));
    assert_eq!("1 - 2 - 3", left.to_string());
    // A right operand is wrapped also if it binds as tightly.
    let right = d_bin(d_int(1), BinOp::Minus, d_bin(d_int(2), BinOp::Minus, d_int(3)));
    assert_eq!("1 - (2 - 3)", right.to_string());
    let looser = d_bin(d_bin(d_int(1), BinOp::Plus, d_int(2)), BinOp::Times, d_int(3));
    assert_eq!("(1 + 2) * 3", looser.to_string());
    let tighter = d_bin(d_int(1), BinOp::Plus, d_bin(d_int(2), BinOp::Times, d_int(3)));
    assert_eq!("1 + 2 * 3", tighter.to_string());
}

#[test]
fn display_other_expressions() {
    assert_eq!("length(a)", Expr::Length(Box::new(d_var("a"))).to_string());
    assert_eq!("letters(s)", Expr::Letters(Box::new(d_var("s"))).to_string());
    assert_eq!("!x", Expr::Not(Box::new(d_var("x"))).to_string());
    assert_eq!(
        "!(x && y)",
        Expr::Not(Box::new(d_bin(d_var("x"), BinOp::And, d_var("y")))).to_string()
    );
    assert_eq!(
        "!x && y",
        d_bin(Expr::Not(Box::new(d_var("x"))), BinOp::And, d_var("y")).to_string()
    );
    assert_eq!("readline()", Expr::ReadLine.to_string());
    assert_eq!("\"hello\"", Expr::Value(Value::Str(String::from("hello"))).to_string());
    assert_eq!("\"hello\"", Value::Str(String::from("hello")).to_string());
    assert_eq!(
        "range(1, n)",
        Expr::Range(Box::new(d_int(1)), Box::new(d_var("n"))).to_string()
    );
    assert_eq!(
        "step(1, n, 2)",
        Expr::Step(Box::new(d_int(1)), Box::new(d_var("n")), Box::new(d_int(2))).to_string()
    );
    assert_eq!(
        "a[0][i + 1]",
        Expr::ArrayElement(
            String::from("a"),
            Box::new(d_int(0)),
            vec![d_bin(d_var("i"), BinOp::Plus, d_int(1))]
        )
        .to_string()
    );
    assert_eq!("f()", d_call("f", vec![]).to_string());
}

#[test]
fn display_statements() {
    assert_eq!("let x = 1;\n", Statement::Let(String::from("x"), d_int(1)).to_string());
    assert_eq!("print x;\n", Statement::Print(d_var("x")).to_string());
    assert_eq!("return x;\n", Statement::Return(d_var("x")).to_string());
    assert_eq!(
        "f(1, 2);\n",
        Statement::VoidCall(String::from("f"), vec![d_int(1), d_int(2)]).to_string()
    );
    assert_eq!(
        "a[0][1] = 2;\n",
        Statement::ArrayElemAssign(String::from("a"), d_int(0), vec![d_int(1)], d_int(2))
            .to_string()
    );
    assert_eq!(
        "delete a[0];\n",
        Statement::Delete(String::from("a"), d_int(0), vec![]).to_string()
    );
    assert_eq!(
        "if (x) {\n    print 1;\n}\n",
        Statement::If(d_var("x"), vec![Statement::Print(d_int(1))], vec![]).to_string()
    );
    assert_eq!(
        "if (x) {\n    print 1;\n} else {\n    print 2;\n}\n",
        Statement::If(
            d_var("x"),
            vec![Statement::Print(d_int(1))],
            vec![Statement::Print(d_int(2))]
        )
        .to_string()
    );
    assert_eq!(
        "int f(a, b) {\n}\n",
        Statement::Defun(
            Type::Int,
            String::from("f"),
            vec![String::from("a"), String::from("b")],
            vec![]
        )
        .to_string()
    );
}

#[test]
fn display_with_indent() {
    let stmt = Statement::While(d_var("x"), vec![Statement::Print(d_int(1))]);
    let mut out = String::new();
    stmt.fmt_with_indent(&mut out, 2);
    assert_eq!("        while (x) {\n            print 1;\n        }\n", out);
}

#[test]
fn display_errors() {
    let e = Error::new(ErrorType::Type, "`x` is not a boolean");
    assert_eq!(ErrorType::Type, e.err_type());
    assert_eq!("TypeError: `x` is not a boolean", e.to_string());
    assert_eq!("ArgumentError", ErrorType::Argument.to_string());
    assert_eq!("ArrayIndexOutOfBoundsError", ErrorType::ArrayIndexOutOfBounds.to_string());
    assert_eq!("RedefinedFunctionError", ErrorType::RedefinedFunction.to_string());
    assert_eq!("StepError", ErrorType::Step.to_string());
    assert_eq!("TypeError", ErrorType::Type.to_string());
    assert_eq!("UndefinedFunctionError", ErrorType::UndefinedFunction.to_string());
    assert_eq!("UndefinedVariableError", ErrorType::UndefinedVariable.to_string());
    let r: Result<(), Error> = Error::argument_error("a");
    assert_eq!(ErrorType::Argument, r.unwrap_err().err_type());
    let r: Result<(), Error> = Error::array_index_out_of_bounds_error("a");
    assert_eq!(ErrorType::ArrayIndexOutOfBounds, r.unwrap_err().err_type());
    let r: Result<(), Error> = Error::redef_func_error("a");
    assert_eq!(ErrorType::RedefinedFunction, r.unwrap_err().err_type());
    let r: Result<(), Error> = Error::step_error("a");
    assert_eq!(ErrorType::Step, r.unwrap_err().err_type());
    let r: Result<(), Error> = Error::type_error("a");
    assert_eq!(ErrorType::Type, r.unwrap_err().err_type());
    let r: Result<(), Error> = Error::undef_func_error("a");
    assert_eq!(ErrorType::UndefinedFunction, r.unwrap_err().err_type());
    let r: Result<(), Error> = Error::undef_var_error("msg");
    let e = r.unwrap_err();
    assert_eq!(ErrorType::UndefinedVariable, e.err_type());
    assert_eq!("msg", e.message);
}
