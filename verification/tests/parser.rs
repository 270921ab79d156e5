use pal::ast::{BinOp, Expr, Statement, Type, Value};
use pal::parser::{parse_expr, parse_program, parse_stmt, ParseError};
use pal::token::{Error, Token};

fn p_int(i: i64) -> Expr {
    Expr::Value(Value::Int(i))
}

fn p_var(name: &str) -> Expr {
    Expr::Var(String::from(name))
}

fn p_bin(l: Expr, op: BinOp, r: Expr) -> Expr {
    Expr::BinExp(Box::new(l), op, Box::new(r))
}

/// The text of the expression that `text` holds: the text is parsed and displayed.
fn reprint(text: &str) -> String {
    parse_expr(text).unwrap().to_string()
}

/// The text of the expression that `text` holds, with every operand in
/// parentheses, so that the grouping shows.
fn grouped(text: &str) -> String {
    fn show(e: &Expr) -> String {
        match e {
            Expr::BinExp(l, op, r) => format!("({} {} {})", show(l), op.to_string(), show(r)),
            Expr::Not(e) => format!("(!{})", show(e)),
            other => other.to_string(),
        }
    }
    show(&parse_expr(text).unwrap())
}

#[test]
fn parse_literals() {
    assert!(matches!(parse_expr("12").unwrap(), Expr::Value(Value::Int(12))));
    assert!(matches!(parse_expr("-12").unwrap(), Expr::Value(Value::Int(-12))));
    assert!(matches!(parse_expr("true").unwrap(), Expr::Value(Value::Bool(true))));
    assert!(matches!(parse_expr("false").unwrap(), Expr::Value(Value::Bool(false))));
    assert!(matches!(
        parse_expr("9223372036854775807").unwrap(),
        Expr::Value(Value::Int(i64::MAX))
    ));
    assert!(matches!(
        parse_expr("-9223372036854775808").unwrap(),
        Expr::Value(Value::Int(i64::MIN))
    ));
    match parse_expr("\"a\\\"b\"").unwrap() {
        Expr::Value(Value::Str(s)) => assert_eq!("a\\\"b", s),
        other => panic!("{:?}", other),
    }
}

#[test]
fn parse_numbers_out_of_range() {
    assert_eq!(
        Some(ParseError::InvalidToken { location: 4 }),
        parse_expr("1 + 9223372036854775808").err()
    );
    assert_eq!(
        Some(ParseError::InvalidToken { location: 0 }),
        parse_expr("-9223372036854775809").err()
    );
}

#[test]
fn parse_precedence() {
    assert_eq!("((1 + (2 * 3)) - 4)", grouped("1 + 2 * 3 - 4"));
    assert_eq!("((a || (b && c)) || d)", grouped("a || b && c || d"));
    assert_eq!("((a == b) && (c != d))", grouped("a == b && c != d"));
    assert_eq!("((a < b) == (c >= d))", grouped("a < b == c >= d"));
    assert_eq!("((a + b) < (c ++ d))", grouped("a + b < c ++ d"));
    assert_eq!("(((a / b) % c) * d)", grouped("a / b % c * d"));
    assert_eq!("((!a) && (!(!b)))", grouped("!a && !!b"));
    assert_eq!("((1 - 2) - 3)", grouped("1 - 2 - 3"));
    assert_eq!("(1 - (2 - 3))", grouped("1 - (2 - 3)"));
    assert_eq!("((a > b) <= c)", grouped("a > b <= c"));
    assert_eq!("((1 + 2) * 3)", grouped("(1 + 2) * 3"));
}

#[test]
fn parse_atoms() {
    assert_eq!("[]", reprint("[ ]"));
    assert_eq!("[1, [a, b], f(2)]", reprint("[1,[a,b],f(2)]"));
    assert_eq!("f()", reprint("f ( )"));
    assert_eq!("f(1, g(x), [1])", reprint("f(1, g(x), [1])"));
    assert_eq!("a[0][i + 1]", reprint("a[0][i+1]"));
    assert_eq!("length(a)", reprint("length(a)"));
    assert_eq!("letters(s ++ t)", reprint("letters(s ++ t)"));
    assert_eq!("readline()", reprint("readline()"));
    assert_eq!("range(1, n - 1)", reprint("range(1, n - 1)"));
    assert_eq!("step(1, n, 2)", reprint("step(1,n,2)"));
    assert!(matches!(parse_expr("length(a)").unwrap(), Expr::Length(_)));
    assert!(matches!(parse_expr("letters(a)").unwrap(), Expr::Letters(_)));
    assert!(matches!(parse_expr("readline()").unwrap(), Expr::ReadLine));
    assert!(matches!(parse_expr("range(1, 2)").unwrap(), Expr::Range(_, _)));
    assert!(matches!(parse_expr("step(1, 2, 3)").unwrap(), Expr::Step(_, _, _)));
    // The names of the built-in functions are no keywords.
    assert!(matches!(parse_expr("length").unwrap(), Expr::Var(_)));
    assert!(matches!(parse_expr("length[0]").unwrap(), Expr::ArrayElement(_, _, _)));
    assert!(matches!(parse_expr("size(a)").unwrap(), Expr::Call(_, _)));
}

#[test]
fn parse_expression_errors() {
    assert_eq!(Some(ParseError::UnrecognizedEof { location: 0 }), parse_expr("").err());
    assert_eq!(Some(ParseError::UnrecognizedEof { location: 3 }), parse_expr("1 +").err());
    assert_eq!(
        Some(ParseError::UnrecognizedToken { token: (4, Token::Star, 5) }),
        parse_expr("1 + * 2").err()
    );
    assert_eq!(
        Some(ParseError::ExtraToken { token: (2, Token::I64(String::from("2")), 3) }),
        parse_expr("1 2").err()
    );
    assert_eq!(
        Some(ParseError::UnrecognizedToken { token: (2, Token::RightBracket, 3) }),
        parse_expr("(1]").err()
    );
    assert_eq!(
        Some(ParseError::UnrecognizedToken { token: (7, Token::RightParen, 8) }),
        parse_expr("range(1)").err()
    );
    assert_eq!(
        Some(ParseError::UnrecognizedToken { token: (11, Token::RightParen, 12) }),
        parse_expr("length(a, b)").err()
    );
    assert_eq!(
        Some(ParseError::UnrecognizedToken { token: (10, Token::RightParen, 11) }),
        parse_expr("readline(1)").err()
    );
    assert_eq!(
        Some(ParseError::UnrecognizedToken { token: (0, Token::Minus, 1) }),
        parse_expr("-x").err()
    );
    assert_eq!(
        Some(ParseError::User {
            error: Error { location: 4, message: String::from("Unrecognized token: #") }
        }),
        parse_expr("1 + #").err()
    );
}

#[test]
fn parse_statements() {
    let cases = [
        "let x = 1;\n",
        "x = x + 1;\n",
        "a[0][1] = [2];\n",
        "delete a[0][1];\n",
        "print x;\n",
        "print_line x ++ y;\n",
        "return f(x);\n",
        "f(1, 2);\n",
        "f();\n",
        "while (x > 0) {\n    x = x - 1;\n}\n",
        "for x in range(1, 3) {\n    print x;\n}\n",
        "if (x) {\n    print 1;\n}\n",
        "if (x) {\n    print 1;\n} else {\n    print 2;\n}\n",
        "int f(a, b) {\n    return a + b;\n}\n",
        "void f() {\n}\n",
        "array f(a) {\n    return [a];\n}\n",
        "boolean f(a) {\n    return !a;\n}\n",
        "string f(a) {\n    return a;\n}\n",
    ];
    for text in cases {
        assert_eq!(text, parse_stmt(text).unwrap().to_string());
    }
}

#[test]
fn parse_else_if() {
    let stmt = parse_stmt("if (a) { x = 1; } else if (b) { x = 2; } else { x = 3; }").unwrap();
    match stmt {
        Statement::If(_, block1, block2) => {
            assert_eq!(1, block1.len());
            assert_eq!(1, block2.len());
            match &block2[0] {
                Statement::If(_, inner1, inner2) => {
                    assert_eq!("x = 2;\n", inner1[0].to_string());
                    assert_eq!("x = 3;\n", inner2[0].to_string());
                }
                other => panic!("{:?}", other),
            }
        }
        other => panic!("{:?}", other),
    }
}

#[test]
fn parse_delete_is_no_keyword() {
    assert!(matches!(parse_stmt("delete a[0];").unwrap(), Statement::Delete(_, _, _)));
    assert!(matches!(parse_stmt("delete = 1;").unwrap(), Statement::VarAssign(_, _)));
    assert!(matches!(parse_stmt("delete(1);").unwrap(), Statement::VoidCall(_, _)));
    assert!(matches!(parse_stmt("delete[0] = 1;").unwrap(), Statement::ArrayElemAssign(_, _, _, _)));
}

#[test]
fn parse_defun() {
    match parse_stmt("int sum3(x, y, z) { return x + y + z; }").unwrap() {
        Statement::Defun(t, name, params, body) => {
            assert_eq!(Type::Int, t);
            assert_eq!("sum3", name);
            assert_eq!(vec!["x", "y", "z"], params);
            assert_eq!(1, body.len());
        }
        other => panic!("{:?}", other),
    }
}

#[test]
fn parse_statement_errors() {
    assert_eq!(Some(ParseError::UnrecognizedEof { location: 0 }), parse_stmt("  ").err());
    assert_eq!(Some(ParseError::UnrecognizedEof { location: 9 }), parse_stmt("let x = 1").err());
    assert_eq!(
        Some(ParseError::ExtraToken { token: (11, Token::Let, 14) }),
        parse_stmt("let x = 1; let y = 2;").err()
    );
    assert_eq!(
        Some(ParseError::UnrecognizedToken { token: (4, Token::I64(String::from("1")), 5) }),
        parse_stmt("let 1 = x;").err()
    );
    assert_eq!(
        Some(ParseError::UnrecognizedToken { token: (0, Token::RightBrace, 1) }),
        parse_program("} let x = 1;").err()
    );
    assert_eq!(
        Some(ParseError::UnrecognizedToken { token: (2, Token::Semicolon, 3) }),
        parse_stmt("x ;").err()
    );
    assert_eq!(
        Some(ParseError::UnrecognizedToken { token: (7, Token::Print, 12) }),
        parse_stmt("if (x) print 1;").err()
    );
    assert_eq!(
        Some(ParseError::UnrecognizedEof { location: 18 }),
        parse_stmt("while (x) { x = 1;").err()
    );
    assert_eq!(
        Some(ParseError::UnrecognizedToken { token: (9, Token::Semicolon, 10) }),
        parse_stmt("delete a ;").err()
    );
    assert_eq!(
        Some(ParseError::User {
            error: Error { location: 8, message: String::from("Unterminated string literal") }
        }),
        parse_program("let x = \"abc").err()
    );
}

#[test]
fn parse_whole_program() {
    let text = "let total = 0;\n\nint sum3(x, y, z) {\n  return x + y + z;\n}\n\nvoid count(i) {\n  while (i >= 0) {\n    total = total + sum3(i, i + 1, i + 2);\n    i = i - 1;\n  }\n}\n\ncount(10);\n";
    let program = parse_program(text).unwrap();
    assert_eq!(4, program.len());
    assert_eq!("let total = 0;\n", program[0].to_string());
    assert_eq!("count(10);\n", program[3].to_string());
    assert_eq!(0, parse_program("").unwrap().len());
}

#[test]
fn parse_display_round_trip() {
    // Parsing what is displayed gives what was displayed.
    let cases = [
        p_bin(p_bin(p_int(1), BinOp::Minus, p_int(2)), BinOp::Minus, p_int(3)),
        p_bin(p_int(1), BinOp::Minus, p_bin(p_int(2), BinOp::Minus, p_int(-3))),
        p_bin(p_bin(p_var("a"), BinOp::Or, p_var("b")), BinOp::And, p_var("c")),
        p_bin(
            p_bin(p_int(100), BinOp::Divide, p_bin(p_int(-12), BinOp::Divide, p_int(6))),
            BinOp::Equal,
            p_bin(
                p_bin(p_int(4), BinOp::Times, p_int(7)),
                BinOp::Modulus,
                p_bin(p_int(-6), BinOp::Plus, p_int(3)),
            ),
        ),
        Expr::Array(vec![p_int(1), Expr::Call(String::from("f"), vec![])]),
        Expr::Not(Box::new(p_bin(p_var("a"), BinOp::And, p_var("b")))),
        p_bin(
            Expr::Value(Value::Str(String::from("a b"))),
            BinOp::Equal,
            Expr::Value(Value::Str(String::from(""))),
        ),
        Expr::Length(Box::new(Expr::Value(Value::Str(String::from("say \\\"hi\\\""))))),
        p_bin(Expr::Not(Box::new(p_var("a"))), BinOp::And, p_var("b")),
        Expr::Not(Box::new(Expr::Not(Box::new(p_bin(p_int(1), BinOp::Equal, p_int(2)))))),
    ];
    for e in cases {
        let text = e.to_string();
        assert_eq!(text, parse_expr(&text).unwrap().to_string());
        assert_eq!(format!("{:?}", e), format!("{:?}", parse_expr(&text).unwrap()));
    }
}

#[test]
fn parse_display_of_primitive_values() {
    for i in [0, 1, -1, 42, i64::MAX, i64::MIN] {
        let text = Value::Int(i).to_string();
        assert!(matches!(parse_expr(&text).unwrap(), Expr::Value(Value::Int(n)) if n == i));
    }
    for b in [true, false] {
        let text = Value::Bool(b).to_string();
        assert!(matches!(parse_expr(&text).unwrap(), Expr::Value(Value::Bool(c)) if c == b));
    }
    for s in ["hi", "", "a b", "1", "true", "say \\\"hi\\\""] {
        let mut text = String::new();
        Value::Str(String::from(s)).fmt(&mut text);
        assert!(matches!(parse_expr(&text).unwrap(), Expr::Value(Value::Str(t)) if t == s));
    }
}

#[test]
fn parse_display_of_a_negation() {
    // What is negated keeps its parentheses where it is a binary expression.
    assert_eq!("!(a && b)", reprint("!(a && b)"));
    assert_eq!("!a && b", reprint("!a && b"));
    assert_eq!("!a && b", reprint("(!a) && b"));
    assert_eq!("!x", reprint("!(x)"));
    assert_eq!("!!(1 == 2)", reprint("!(!(1 == 2))"));
    assert_eq!("!f(1 + 2)", reprint("!f(1 + 2)"));
}

#[test]
fn parse_display_of_a_string_literal() {
    // A string literal is displayed between its quotes, with its escapes as they were written.
    assert_eq!("\"hello\"", reprint("\"hello\""));
    assert_eq!("\"\"", reprint("\"\""));
    assert_eq!("\"a\\\"b\"", reprint("\"a\\\"b\""));
    assert_eq!("letters(\"hello\") ++ [\"!\"]", reprint("letters(\"hello\")++[\"!\"]"));
    // The value holds what stands between the quotes, and is displayed as its literal.
    match parse_expr("\"a\\\"b\"").unwrap() {
        Expr::Value(v) => {
            assert_eq!(Value::Str(String::from("a\\\"b")), v);
            assert_eq!("\"a\\\"b\"", v.to_string());
        },
        other => panic!("no literal: {:?}", other),
    }
    for text in ["", "hello", "a b", "1", "true"] {
        let literal = Value::Str(String::from(text)).to_string();
        assert!(matches!(parse_expr(&literal).unwrap(), Expr::Value(Value::Str(s)) if s == text));
    }
}
