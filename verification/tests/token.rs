use pal::token::{Error, Token, Tokenizer};

/// All the tokens of `text`, with their offsets.
fn lex(text: &str) -> Vec<Result<(usize, Token, usize), Error>> {
    let mut tokenizer = Tokenizer::new(text, 0);
    let mut found = Vec::new();
    while let Some(next) = tokenizer.next() {
        let stop = next.is_err();
        found.push(next);
        if stop {
            break;
        }
    }
    found
}

/// The tokens of `text`, which holds no lexical error, without their offsets.
fn kinds(text: &str) -> Vec<Token> {
    lex(text).into_iter().map(|t| t.unwrap().1).collect()
}

fn ident(name: &str) -> Token {
    Token::Ident(String::from(name))
}

fn number(text: &str) -> Token {
    Token::I64(String::from(text))
}

#[test]
fn tokens_keywords() {
    assert_eq!(
        vec![
            Token::Let,
            Token::Print,
            Token::PrintLine,
            Token::If,
            Token::Else,
            Token::While,
            Token::For,
            Token::In,
            Token::Return,
            Token::Range,
            Token::Step,
            Token::True,
            Token::False,
        ],
        kinds("let print print_line if else while for in return range step true false")
    );
    assert_eq!(
        vec![Token::Array, Token::Boolean, Token::Int, Token::Str, Token::Void],
        kinds("array boolean int string void")
    );
}

#[test]
fn tokens_builtin_names_are_identifiers() {
    assert_eq!(
        vec![ident("length"), ident("letters"), ident("readline"), ident("delete")],
        kinds("length letters readline delete")
    );
    assert_eq!(
        vec![ident("lets"), ident("iff"), ident("print_lines"), ident("In"), ident("x_1")],
        kinds("lets iff print_lines In x_1")
    );
}

#[test]
fn tokens_operators() {
    assert_eq!(
        vec![
            Token::Bang,
            Token::DoubleAmp,
            Token::DoubleBars,
            Token::DoubleEqual,
            Token::NotEqual,
            Token::GreaterOrEqual,
            Token::GreaterThan,
            Token::LessOrEqual,
            Token::LessThan,
            Token::Plus,
            Token::Minus,
            Token::Star,
            Token::Slash,
            Token::Percent,
            Token::DoublePlus,
            Token::Equal,
        ],
        kinds("! && || == != >= > <= < + - * / % ++ =")
    );
    assert_eq!(
        vec![Token::DoubleEqual, Token::Equal, Token::DoublePlus, Token::Plus, Token::NotEqual, Token::Bang],
        kinds("===+++!=!")
    );
}

#[test]
fn tokens_punctuation() {
    assert_eq!(
        vec![
            Token::Comma,
            Token::Semicolon,
            Token::LeftParen,
            Token::RightParen,
            Token::LeftBrace,
            Token::RightBrace,
            Token::LeftBracket,
            Token::RightBracket,
        ],
        kinds(",;(){}[]")
    );
}

#[test]
fn tokens_numbers() {
    assert_eq!(vec![number("0"), number("12"), number("-12")], kinds("0 12 -12"));
    // A minus in front of a digit makes a number, whatever stands before it.
    assert_eq!(vec![ident("a"), number("-1")], kinds("a-1"));
    assert_eq!(vec![ident("a"), Token::Minus, number("1")], kinds("a - 1"));
    assert_eq!(vec![Token::Minus, ident("a")], kinds("-a"));
    assert_eq!(vec![Token::Minus, Token::Minus, number("-7")], kinds("---7"));
    assert_eq!(vec![number("12"), ident("ab")], kinds("12ab"));
    assert_eq!(vec![Token::Minus], kinds("-"));
}

#[test]
fn tokens_strings() {
    assert_eq!(vec![Token::StringLiteral(String::from("hello!"))], kinds("\"hello!\""));
    assert_eq!(vec![Token::StringLiteral(String::new())], kinds("\"\""));
    // A character behind a backslash is taken as it is and ends nothing.
    assert_eq!(
        vec![Token::StringLiteral(String::from("a\\\"b")), ident("c")],
        kinds("\"a\\\"b\"c")
    );
    assert_eq!(vec![Token::StringLiteral(String::from("\\\\"))], kinds("\"\\\\\""));
    assert_eq!(vec![Token::StringLiteral(String::from("let x\n= 1;"))], kinds("\"let x\n= 1;\""));
}

#[test]
fn tokens_offsets() {
    assert_eq!(
        vec![
            Ok((0, Token::Let, 3)),
            Ok((4, ident("x"), 5)),
            Ok((6, Token::Equal, 7)),
            Ok((8, number("-12"), 11)),
            Ok((11, Token::Semicolon, 12)),
        ],
        lex("let x = -12;")
    );
    assert_eq!(
        vec![Ok((2, Token::StringLiteral(String::from("ab")), 6)), Ok((7, Token::DoubleEqual, 9))],
        lex("\n \"ab\" ==\t")
    );
    assert_eq!(Vec::<Result<(usize, Token, usize), Error>>::new(), lex(""));
    assert_eq!(Vec::<Result<(usize, Token, usize), Error>>::new(), lex(" \n\t\r "));
}

#[test]
fn tokens_offsets_are_in_bytes() {
    // The characters of the literal take two, three and four bytes.
    assert_eq!(
        vec![
            Ok((0, Token::StringLiteral(String::from("\u{e9}\u{20ac}\u{1F600}")), 11)),
            Ok((12, ident("\u{e9}t\u{e9}"), 17)),
            Ok((17, Token::Semicolon, 18)),
        ],
        lex("\"\u{e9}\u{20ac}\u{1F600}\" \u{e9}t\u{e9};")
    );
}

#[test]
fn tokens_shift() {
    let mut tokenizer = Tokenizer::new("a &", 100);
    assert_eq!(Some(Ok((100, ident("a"), 101))), tokenizer.next());
    assert_eq!(
        Some(Err(Error { location: 102, message: String::from("Unrecognized token: &") })),
        tokenizer.next()
    );
}

#[test]
fn tokens_unicode_identifiers() {
    // Letters of any script begin an identifier; marks and digits go on with it.
    assert_eq!(vec![ident("\u{3b1}\u{3b2}1")], kinds("\u{3b1}\u{3b2}1"));
    assert_eq!(vec![ident("a\u{301}")], kinds("a\u{301}"));
    // An underscore goes on with an identifier and begins none.
    assert_eq!(
        vec![Err(Error { location: 0, message: String::from("Unrecognized token: _") })],
        lex("_a")
    );
    // A no-break space and an ideographic space are blanks.
    assert_eq!(vec![ident("a"), ident("b"), ident("c")], kinds("a\u{a0}b\u{3000}c"));
}

#[test]
fn tokens_errors() {
    assert_eq!(
        vec![
            Ok((0, ident("a"), 1)),
            Err(Error { location: 2, message: String::from("Unrecognized token: #") })
        ],
        lex("a # b")
    );
    assert_eq!(
        vec![Err(Error { location: 0, message: String::from("Unrecognized token: &x") })],
        lex("&x")
    );
    assert_eq!(
        vec![Err(Error { location: 1, message: String::from("Unrecognized token: |") })],
        lex(" |")
    );
    assert_eq!(
        vec![Err(Error { location: 0, message: String::from("Unrecognized token: | ") })],
        lex("| |")
    );
    assert_eq!(
        vec![
            Ok((0, ident("x"), 1)),
            Err(Error { location: 2, message: String::from("Unterminated string literal") })
        ],
        lex("x \"abc")
    );
    assert_eq!(
        vec![Err(Error { location: 0, message: String::from("Unterminated string literal") })],
        lex("\"abc\\\"")
    );
    assert_eq!(
        vec![
            Ok((0, ident("\u{e9}"), 2)),
            Err(Error { location: 3, message: String::from("Unrecognized token: \u{20ac}") })
        ],
        lex("\u{e9} \u{20ac}")
    );
}

#[test]
fn tokens_after_an_error() {
    // After a character that begins no token the tokenizer stays where it is.
    let mut tokenizer = Tokenizer::new("a # b", 0);
    assert_eq!(Some(Ok((0, ident("a"), 1))), tokenizer.next());
    let error = Error { location: 2, message: String::from("Unrecognized token: #") };
    assert_eq!(Some(Err(error.clone())), tokenizer.next());
    assert_eq!(Some(Err(error)), tokenizer.next());
    // After a single `&` it goes on behind the `&`.
    let mut tokenizer = Tokenizer::new("&x y", 0);
    assert!(matches!(tokenizer.next(), Some(Err(_))));
    assert_eq!(Some(Ok((1, ident("x"), 2))), tokenizer.next());
    assert_eq!(Some(Ok((3, ident("y"), 4))), tokenizer.next());
    assert_eq!(None, tokenizer.next());
    // After a string literal without an end it is at the end of the text.
    let mut tokenizer = Tokenizer::new("\"abc", 0);
    assert!(matches!(tokenizer.next(), Some(Err(_))));
    assert_eq!(None, tokenizer.next());
}

/// Whether `c` is one of the characters with the Unicode property White_Space.
fn has_white_space(c: char) -> bool {
    matches!(
        c,
        '\u{9}'..='\u{d}'
            | ' '
            | '\u{85}'
            | '\u{a0}'
            | '\u{1680}'
            | '\u{2000}'..='\u{200a}'
            | '\u{2028}'
            | '\u{2029}'
            | '\u{202f}'
            | '\u{205f}'
            | '\u{3000}'
    )
}

#[test]
fn blanks_are_the_white_space_characters() {
    // A character before a word is skipped just if it has the property White_Space.
    for code in 0..=0x10FFFFu32 {
        if let Some(c) = char::from_u32(code) {
            let mut text = String::new();
            text.push(c);
            text.push('a');
            let skipped = lex(&text) == vec![Ok((c.len_utf8(), ident("a"), c.len_utf8() + 1))];
            assert_eq!(has_white_space(c), skipped, "U+{:04X}", code);
            assert_eq!(has_white_space(c), c.is_whitespace(), "U+{:04X}", code);
        }
    }
}

#[test]
fn tabs_and_carriage_returns_are_skipped() {
    assert_eq!(
        vec![Token::Let, ident("x"), Token::Equal, number("1"), Token::Semicolon],
        kinds("\tlet\tx\r\n=\u{b}1\u{c};\r")
    );
}

#[test]
fn line_feeds_between_tokens_are_counted() {
    let mut tokenizer = Tokenizer::new("let x\n=\n\n1;\n", 0);
    assert_eq!(1, tokenizer.line_num());
    assert!(tokenizer.next().is_some());
    assert!(tokenizer.next().is_some());
    assert_eq!(1, tokenizer.line_num());
    assert_eq!(Some(Ok((6, Token::Equal, 7))), tokenizer.next());
    assert_eq!(2, tokenizer.line_num());
    assert_eq!(Some(Ok((9, number("1"), 10))), tokenizer.next());
    assert_eq!(4, tokenizer.line_num());
    assert_eq!(Some(Ok((10, Token::Semicolon, 11))), tokenizer.next());
    assert_eq!(4, tokenizer.line_num());
    assert_eq!(None, tokenizer.next());
    assert_eq!(5, tokenizer.line_num());
}

#[test]
fn line_feeds_in_a_string_literal_are_not_counted() {
    let mut tokenizer = Tokenizer::new("\"a\nb\" x", 0);
    assert!(tokenizer.next().is_some());
    assert!(tokenizer.next().is_some());
    assert_eq!(None, tokenizer.next());
    assert_eq!(1, tokenizer.line_num());
}
