//! The parser: from source text to statements.

pub mod grammar;
pub mod lexing;
pub mod printing;
pub mod progress;
pub mod round_trip;
pub mod shape;

use crate::ast::{
    exprs_view, group_ast_views, stmts_view, strings_view, BinOp, Expr, SpecExpr, SpecStatement,
    Statement, Type, Value,
};
use crate::parser::grammar::{
    binary_op, expect, expect_ident, left, parse_program_from, tokens_from, type_of_token,
    unexpected, Parsed, SpecParseError, SpecSpanned,
};
use crate::text::{chars_of, parse_int};
use crate::token::{is, lemma_token_advances, Error, Spanned, SpecToken, Token, Tokenizer};
use vstd::prelude::*;

verus! {

broadcast use group_ast_views;

/// Why a text is no program.
#[derive(Debug, PartialEq, Eq)]
pub enum ParseError {
    /// A number at `location` that does not fit in 64 bits.
    InvalidToken { location: usize },
    /// The text ended where more was expected; `location` is the end of the
    /// last token.
    UnrecognizedEof { location: usize },
    /// A token that cannot stand where it stands.
    UnrecognizedToken { token: (usize, Token, usize) },
    /// A token behind the end of a complete statement.
    ExtraToken { token: (usize, Token, usize) },
    /// A lexical error.
    User { error: Error },
}

/// The model of a located token.
pub open spec fn spanned_view(t: Spanned) -> SpecSpanned {
    (t.0 as int, t.1@, t.2 as int)
}

/// The models of a sequence of located tokens, element by element.
pub open spec fn tokens_view(ts: Seq<Spanned>) -> Seq<SpecSpanned> {
    Seq::new(ts.len(), |k: int| spanned_view(ts[k]))
}

impl View for ParseError {
    type V = SpecParseError;

    open spec fn view(&self) -> SpecParseError {
        match self {
            ParseError::InvalidToken { location } => SpecParseError::InvalidToken {
                location: *location as int,
            },
            ParseError::UnrecognizedEof { location } => SpecParseError::UnrecognizedEof {
                location: *location as int,
            },
            ParseError::UnrecognizedToken { token } => SpecParseError::UnrecognizedToken {
                token: spanned_view(*token),
            },
            ParseError::ExtraToken { token } => SpecParseError::ExtraToken {
                token: spanned_view(*token),
            },
            ParseError::User { error } => SpecParseError::User {
                location: error.location as int,
                message: error.message@,
            },
        }
    }
}

/// The model of the result of parsing an expression.
pub open spec fn expr_parsed(r: Result<(Expr, usize), ParseError>) -> Parsed<SpecExpr> {
    match r {
        Ok((e, j)) => Ok((e@, j as int)),
        Err(e) => Err(e@),
    }
}

/// The model of the result of parsing a list of expressions.
pub open spec fn exprs_parsed(r: Result<(Vec<Expr>, usize), ParseError>) -> Parsed<Seq<SpecExpr>> {
    match r {
        Ok((es, j)) => Ok((exprs_view(es@), j as int)),
        Err(e) => Err(e@),
    }
}

/// The model of the result of parsing a list of names.
pub open spec fn names_parsed(r: Result<(Vec<String>, usize), ParseError>) -> Parsed<
    Seq<Seq<char>>,
> {
    match r {
        Ok((names, j)) => Ok((strings_view(names@), j as int)),
        Err(e) => Err(e@),
    }
}

/// The model of the result of parsing a statement.
pub open spec fn stmt_parsed(r: Result<(Statement, usize), ParseError>) -> Parsed<SpecStatement> {
    match r {
        Ok((s, j)) => Ok((s@, j as int)),
        Err(e) => Err(e@),
    }
}

/// The model of the result of parsing a list of statements.
pub open spec fn stmts_parsed(r: Result<(Vec<Statement>, usize), ParseError>) -> Parsed<
    Seq<SpecStatement>,
> {
    match r {
        Ok((ss, j)) => Ok((stmts_view(ss@), j as int)),
        Err(e) => Err(e@),
    }
}

/// The tokens of `text`, with their offsets in bytes, or the first lexical error.
pub fn tokenize(text: &str) -> (r: Result<Vec<Spanned>, ParseError>)
    ensures
        match r {
            Ok(tokens) => tokens_from(text@, 0) == Ok::<Seq<SpecSpanned>, SpecParseError>(
                tokens_view(tokens@),
            ),
            Err(e) => tokens_from(text@, 0) == Err::<Seq<SpecSpanned>, SpecParseError>(e@),
        },
{
    // The length in bytes fits in `usize`, so no offset overflows.
    let _ = text.as_bytes().len();
    let mut tokenizer = Tokenizer::new(text, 0);
    let mut tokens: Vec<Spanned> = Vec::new();
    let ghost s = text@;
    loop
        invariant
            tokenizer.wf(),
            tokenizer.source() == s,
            tokenizer.spec_shift() == 0,
            s == text@,
            match tokens_from(s, tokenizer.position()) {
                Ok(rest) => tokens_from(s, 0) == Ok::<Seq<SpecSpanned>, SpecParseError>(
                    tokens_view(tokens@) + rest,
                ),
                Err(e) => tokens_from(s, 0) == Err::<Seq<SpecSpanned>, SpecParseError>(e),
            },
        decreases
                (if tokenizer.position() < s.len() {
                    s.len() - tokenizer.position()
                } else {
                    0
                }),
    {
        let ghost pos = tokenizer.position();
        proof {
            tokenizer.lemma_position();
            lemma_token_advances(s, pos);
        }
        match tokenizer.next() {
            Some(Ok(token)) => {
                let ghost before = tokens_view(tokens@);
                tokens.push(token);
                proof {
                    assert(tokens_view(tokens@) =~= before.push(spanned_view(token)));
                    match tokens_from(s, tokenizer.position()) {
                        Ok(rest) => {
                            assert(before + (seq![spanned_view(token)] + rest) =~= tokens_view(
                                tokens@,
                            ) + rest);
                        },
                        Err(e) => {},
                    }
                }
            },
            Some(Err(error)) => {
                return Err(ParseError::User { error });
            },
            None => {
                assert(tokens_view(tokens@) + Seq::<SpecSpanned>::empty() =~= tokens_view(tokens@));
                return Ok(tokens);
            },
        }
    }
}

/// The token at the place `i`, if there is one.
fn peek(tokens: &Vec<Spanned>, i: usize) -> (r: Option<&Token>)
    ensures
        match r {
            Some(t) => i < tokens.len() && t@ == tokens_view(tokens@)[i as int].1,
            None => i >= tokens.len(),
        },
{
    if i < tokens.len() {
        Some(&tokens[i].1)
    } else {
        None
    }
}

/// The error for the place `i`, where nothing that is expected stands.
fn unexpected_at<T>(tokens: &Vec<Spanned>, i: usize) -> (r: Result<T, ParseError>)
    ensures
        r matches Err(e) && e@ == unexpected(tokens_view(tokens@), i as int),
{
    if i < tokens.len() {
        let token = (tokens[i].0, tokens[i].1.clone(), tokens[i].2);
        Err(ParseError::UnrecognizedToken { token })
    } else {
        let location = if tokens.len() > 0 {
            tokens[tokens.len() - 1].2
        } else {
            0
        };
        Err(ParseError::UnrecognizedEof { location })
    }
}

/// The tokens without a text of their own that the grammar asks for by name.
#[derive(Clone, Copy)]
pub enum Mark {
    Bang,
    Comma,
    Else,
    Equal,
    If,
    In,
    LeftBrace,
    LeftBracket,
    LeftParen,
    RightBrace,
    RightBracket,
    RightParen,
    Semicolon,
}

impl Mark {
    /// The token that the mark stands for.
    pub open spec fn token(self) -> SpecToken {
        match self {
            Mark::Bang => SpecToken::Bang,
            Mark::Comma => SpecToken::Comma,
            Mark::Else => SpecToken::Else,
            Mark::Equal => SpecToken::Equal,
            Mark::If => SpecToken::If,
            Mark::In => SpecToken::In,
            Mark::LeftBrace => SpecToken::LeftBrace,
            Mark::LeftBracket => SpecToken::LeftBracket,
            Mark::LeftParen => SpecToken::LeftParen,
            Mark::RightBrace => SpecToken::RightBrace,
            Mark::RightBracket => SpecToken::RightBracket,
            Mark::RightParen => SpecToken::RightParen,
            Mark::Semicolon => SpecToken::Semicolon,
        }
    }

    /// Whether `t` is the token that the mark stands for.
    fn is(self, t: &Token) -> (b: bool)
        ensures
            b == (t@ == self.token()),
    {
        match (self, t) {
            (Mark::Bang, Token::Bang) => true,
            (Mark::Comma, Token::Comma) => true,
            (Mark::Else, Token::Else) => true,
            (Mark::Equal, Token::Equal) => true,
            (Mark::If, Token::If) => true,
            (Mark::In, Token::In) => true,
            (Mark::LeftBrace, Token::LeftBrace) => true,
            (Mark::LeftBracket, Token::LeftBracket) => true,
            (Mark::LeftParen, Token::LeftParen) => true,
            (Mark::RightBrace, Token::RightBrace) => true,
            (Mark::RightBracket, Token::RightBracket) => true,
            (Mark::RightParen, Token::RightParen) => true,
            (Mark::Semicolon, Token::Semicolon) => true,
            _ => false,
        }
    }
}

/// Whether the token at the place `i` is the one that `mark` stands for.
fn token_is(tokens: &Vec<Spanned>, i: usize, mark: Mark) -> (b: bool)
    ensures
        b == grammar::token_is(tokens_view(tokens@), i as int, mark.token()),
        b ==> i < tokens.len(),
{
    match peek(tokens, i) {
        Some(t) => mark.is(t),
        None => false,
    }
}

/// The place behind the token that `mark` stands for, which must stand at
/// the place `i`.
fn expect_mark(tokens: &Vec<Spanned>, i: usize, mark: Mark) -> (r: Result<usize, ParseError>)
    ensures
        match r {
            Ok(j) => expect(tokens_view(tokens@), i as int, mark.token()) == Ok::<
                int,
                SpecParseError,
            >(j as int) && j == i + 1 && j <= tokens.len(),
            Err(e) => expect(tokens_view(tokens@), i as int, mark.token()) == Err::<
                int,
                SpecParseError,
            >(e@),
        },
{
    if token_is(tokens, i, mark) {
        Ok(i + 1)
    } else {
        unexpected_at(tokens, i)
    }
}

/// The identifier that must stand at the place `i`.
fn expect_name(tokens: &Vec<Spanned>, i: usize) -> (r: Result<String, ParseError>)
    ensures
        match r {
            Ok(name) => expect_ident(tokens_view(tokens@), i as int) == Ok::<
                Seq<char>,
                SpecParseError,
            >(name@) && i < tokens.len(),
            Err(e) => expect_ident(tokens_view(tokens@), i as int) == Err::<
                Seq<char>,
                SpecParseError,
            >(e@),
        },
{
    match peek(tokens, i) {
        Some(Token::Ident(name)) => Ok(name.clone()),
        _ => unexpected_at(tokens, i),
    }
}

/// The binary operator that the token at the place `i` stands for, if it
/// is one of the given level.
fn binary_at(tokens: &Vec<Spanned>, i: usize, level: u8) -> (r: Option<BinOp>)
    ensures
        match r {
            Some(op) => i < tokens.len() && level < 6 && binary_op(
                tokens_view(tokens@)[i as int].1,
                level as nat,
            ) == Some(op),
            None => !(i < tokens.len() && level < 6 && binary_op(
                tokens_view(tokens@)[i as int].1,
                level as nat,
            ) is Some),
        },
{
    let t = match peek(tokens, i) {
        Some(t) => t,
        None => {
            return None;
        },
    };
    if level == 0 {
        match t {
            Token::DoubleBars => Some(BinOp::Or),
            _ => None,
        }
    } else if level == 1 {
        match t {
            Token::DoubleAmp => Some(BinOp::And),
            _ => None,
        }
    } else if level == 2 {
        match t {
            Token::DoubleEqual => Some(BinOp::Equal),
            Token::NotEqual => Some(BinOp::NotEqual),
            _ => None,
        }
    } else if level == 3 {
        match t {
            Token::GreaterOrEqual => Some(BinOp::GreaterOrEqual),
            Token::GreaterThan => Some(BinOp::GreaterThan),
            Token::LessOrEqual => Some(BinOp::LessOrEqual),
            Token::LessThan => Some(BinOp::LessThan),
            _ => None,
        }
    } else if level == 4 {
        match t {
            Token::Plus => Some(BinOp::Plus),
            Token::Minus => Some(BinOp::Minus),
            Token::DoublePlus => Some(BinOp::Concat),
            _ => None,
        }
    } else if level == 5 {
        match t {
            Token::Star => Some(BinOp::Times),
            Token::Slash => Some(BinOp::Divide),
            Token::Percent => Some(BinOp::Modulus),
            _ => None,
        }
    } else {
        None
    }
}

/// An expression at the place `i`.
pub fn parse_expr_at(tokens: &Vec<Spanned>, i: usize) -> (r: Result<(Expr, usize), ParseError>)
    ensures
        expr_parsed(r) == grammar::parse_expr(tokens_view(tokens@), i as int),
        r matches Ok((_, j)) ==> i < j <= tokens.len(),
    decreases left(tokens_view(tokens@), i as int), 12nat,
{
    parse_level(tokens, i, 0)
}

/// An expression at the place `i` whose binary operators are of the given
/// level or bind tighter.
fn parse_level(tokens: &Vec<Spanned>, i: usize, level: u8) -> (r: Result<(Expr, usize), ParseError>)
    ensures
        expr_parsed(r) == grammar::parse_level(tokens_view(tokens@), i as int, level as nat),
        r matches Ok((_, j)) ==> i < j <= tokens.len(),
    decreases left(tokens_view(tokens@), i as int),
        (if level < 6 {
            10 - level
        } else {
            4
        }) as nat,
{
    if level >= 6 {
        return parse_unary(tokens, i);
    }
    let (lhs, j) = match parse_level(tokens, i, level + 1) {
        Ok(found) => found,
        Err(e) => {
            return Err(e);
        },
    };
    parse_level_rest(tokens, j, level, lhs)
}

/// The expression that begins with `lhs` and goes on at the place `i` with
/// operators of the given level and their right operands.
fn parse_level_rest(tokens: &Vec<Spanned>, i: usize, level: u8, lhs: Expr) -> (r: Result<
    (Expr, usize),
    ParseError,
>)
    requires
        i <= tokens.len(),
    ensures
        expr_parsed(r) == grammar::parse_level_rest(
            tokens_view(tokens@),
            i as int,
            level as nat,
            lhs@,
        ),
        r matches Ok((_, j)) ==> i <= j <= tokens.len(),
    decreases left(tokens_view(tokens@), i as int), 0nat,
{
    match binary_at(tokens, i, level) {
        Some(op) => {
            let (rhs, j) = match parse_level(tokens, i + 1, level + 1) {
                Ok(found) => found,
                Err(e) => {
                    return Err(e);
                },
            };
            parse_level_rest(tokens, j, level, Expr::BinExp(Box::new(lhs), op, Box::new(rhs)))
        },
        None => Ok((lhs, i)),
    }
}

/// A negation or an atom at the place `i`.
fn parse_unary(tokens: &Vec<Spanned>, i: usize) -> (r: Result<(Expr, usize), ParseError>)
    ensures
        expr_parsed(r) == grammar::parse_unary(tokens_view(tokens@), i as int),
        r matches Ok((_, j)) ==> i < j <= tokens.len(),
    decreases left(tokens_view(tokens@), i as int), 3nat,
{
    if token_is(tokens, i, Mark::Bang) {
        match parse_unary(tokens, i + 1) {
            Ok((e, j)) => Ok((Expr::Not(Box::new(e)), j)),
            Err(e) => Err(e),
        }
    } else {
        parse_atom(tokens, i)
    }
}

/// The arguments of `range` or `step`, which stands at the place `i`.
fn parse_arguments(tokens: &Vec<Spanned>, i: usize) -> (r: Result<(Vec<Expr>, usize), ParseError>)
    requires
        i < tokens.len(),
    ensures
        match r {
            Ok((args, j)) => grammar::token_is(tokens_view(tokens@), i + 1, SpecToken::LeftParen)
                && grammar::parse_list(tokens_view(tokens@), i + 2, SpecToken::RightParen) == Ok::<
                (Seq<SpecExpr>, int),
                SpecParseError,
            >((exprs_view(args@), j as int)) && i + 2 < j <= tokens.len(),
            Err(e) => if grammar::token_is(tokens_view(tokens@), i + 1, SpecToken::LeftParen) {
                grammar::parse_list(tokens_view(tokens@), i + 2, SpecToken::RightParen) == Err::<
                    (Seq<SpecExpr>, int),
                    SpecParseError,
                >(e@)
            } else {
                e@ == unexpected(tokens_view(tokens@), i + 1)
            },
        },
    decreases left(tokens_view(tokens@), i as int), 1nat,
{
    if !token_is(tokens, i + 1, Mark::LeftParen) {
        return unexpected_at(tokens, i + 1);
    }
    parse_list(tokens, i + 2, Mark::RightParen)
}

/// An atom at the place `i`.
fn parse_atom(tokens: &Vec<Spanned>, i: usize) -> (r: Result<(Expr, usize), ParseError>)
    ensures
        expr_parsed(r) == grammar::parse_atom(tokens_view(tokens@), i as int),
        r matches Ok((_, j)) ==> i < j <= tokens.len(),
    decreases left(tokens_view(tokens@), i as int), 2nat,
{
    let token = match peek(tokens, i) {
        Some(t) => t,
        None => {
            return unexpected_at(tokens, i);
        },
    };
    match token {
        Token::I64(text) => {
            match parse_int(&chars_of(text.as_str())) {
                Some(n) => Ok((Expr::Value(Value::Int(n)), i + 1)),
                None => Err(ParseError::InvalidToken { location: tokens[i].0 }),
            }
        },
        Token::StringLiteral(text) => Ok((Expr::Value(Value::Str(text.clone())), i + 1)),
        Token::True => Ok((Expr::Value(Value::Bool(true)), i + 1)),
        Token::False => Ok((Expr::Value(Value::Bool(false)), i + 1)),
        Token::LeftBracket => {
            match parse_list(tokens, i + 1, Mark::RightBracket) {
                Ok((items, j)) => Ok((Expr::Array(items), j)),
                Err(e) => Err(e),
            }
        },
        Token::LeftParen => {
            let (e, j) = match parse_expr_at(tokens, i + 1) {
                Ok(found) => found,
                Err(e) => {
                    return Err(e);
                },
            };
            match expect_mark(tokens, j, Mark::RightParen) {
                Ok(k) => Ok((e, k)),
                Err(e) => Err(e),
            }
        },
        Token::Range => {
            let (mut args, j) = match parse_arguments(tokens, i) {
                Ok(found) => found,
                Err(e) => {
                    return Err(e);
                },
            };
            if args.len() != 2 {
                return unexpected_at(tokens, j - 1);
            }
            let ghost model = exprs_view(args@);
            let end = args.remove(1);
            let start = args.remove(0);
            Ok((Expr::Range(Box::new(start), Box::new(end)), j))
        },
        Token::Step => {
            let (mut args, j) = match parse_arguments(tokens, i) {
                Ok(found) => found,
                Err(e) => {
                    return Err(e);
                },
            };
            if args.len() != 3 {
                return unexpected_at(tokens, j - 1);
            }
            let step = args.remove(2);
            let end = args.remove(1);
            let start = args.remove(0);
            Ok((Expr::Step(Box::new(start), Box::new(end), Box::new(step)), j))
        },
        Token::Ident(name) => parse_ident_atom(tokens, i, name),
        _ => unexpected_at(tokens, i),
    }
}

/// The atom at the place `i` that begins with the identifier `name`: a
/// call, one of `length`, `letters` and `readline`, the indexing of a
/// variable, or a variable.
fn parse_ident_atom(tokens: &Vec<Spanned>, i: usize, name: &String) -> (r: Result<
    (Expr, usize),
    ParseError,
>)
    requires
        i < tokens.len(),
        tokens_view(tokens@)[i as int].1 == SpecToken::Ident(name@),
    ensures
        expr_parsed(r) == grammar::parse_atom(tokens_view(tokens@), i as int),
        r matches Ok((_, j)) ==> i < j <= tokens.len(),
    decreases left(tokens_view(tokens@), i as int), 1nat,
{
    if token_is(tokens, i + 1, Mark::LeftParen) {
        let (mut args, j) = match parse_list(tokens, i + 2, Mark::RightParen) {
            Ok(found) => found,
            Err(e) => {
                return Err(e);
            },
        };
        if is(name, "length") {
            if args.len() != 1 {
                return unexpected_at(tokens, j - 1);
            }
            let arg = args.remove(0);
            Ok((Expr::Length(Box::new(arg)), j))
        } else if is(name, "letters") {
            if args.len() != 1 {
                return unexpected_at(tokens, j - 1);
            }
            let arg = args.remove(0);
            Ok((Expr::Letters(Box::new(arg)), j))
        } else if is(name, "readline") {
            if args.len() != 0 {
                return unexpected_at(tokens, j - 1);
            }
            Ok((Expr::ReadLine, j))
        } else {
            Ok((Expr::Call(name.clone(), args), j))
        }
    } else if token_is(tokens, i + 1, Mark::LeftBracket) {
        let (mut indexes, j) = match parse_indexes(tokens, i + 1, Vec::new()) {
            Ok(found) => found,
            Err(e) => {
                return Err(e);
            },
        };
        let ghost model = exprs_view(indexes@);
        let first = indexes.remove(0);
        assert(exprs_view(indexes@) =~= model.drop_first());
        Ok((Expr::ArrayElement(name.clone(), Box::new(first), indexes), j))
    } else {
        Ok((Expr::Var(name.clone()), i + 1))
    }
}

/// The expressions at the place `i`, with commas between them, up to the
/// token that `close` stands for.
fn parse_list(tokens: &Vec<Spanned>, i: usize, close: Mark) -> (r: Result<
    (Vec<Expr>, usize),
    ParseError,
>)
    requires
        i <= tokens.len(),
    ensures
        exprs_parsed(r) == grammar::parse_list(tokens_view(tokens@), i as int, close.token()),
        r matches Ok((_, j)) ==> i < j <= tokens.len(),
    decreases left(tokens_view(tokens@), i as int), 14nat,
{
    if token_is(tokens, i, close) {
        return Ok((Vec::new(), i + 1));
    }
    let (e, j) = match parse_expr_at(tokens, i) {
        Ok(found) => found,
        Err(e) => {
            return Err(e);
        },
    };
    let mut done: Vec<Expr> = Vec::new();
    done.push(e);
    assert(exprs_view(done@) =~= seq![e@]);
    parse_list_rest(tokens, j, close, done)
}

/// The list that begins with `done` and goes on at the place `i`.
fn parse_list_rest(tokens: &Vec<Spanned>, i: usize, close: Mark, done: Vec<Expr>) -> (r: Result<
    (Vec<Expr>, usize),
    ParseError,
>)
    requires
        i <= tokens.len(),
    ensures
        exprs_parsed(r) == grammar::parse_list_rest(
            tokens_view(tokens@),
            i as int,
            close.token(),
            exprs_view(done@),
        ),
        r matches Ok((_, j)) ==> i < j <= tokens.len(),
    decreases left(tokens_view(tokens@), i as int), 0nat,
{
    if token_is(tokens, i, Mark::Comma) {
        let (e, j) = match parse_expr_at(tokens, i + 1) {
            Ok(found) => found,
            Err(e) => {
                return Err(e);
            },
        };
        let mut done = done;
        let ghost before = exprs_view(done@);
        done.push(e);
        assert(exprs_view(done@) =~= before.push(e@));
        parse_list_rest(tokens, j, close, done)
    } else {
        match expect_mark(tokens, i, close) {
            Ok(j) => Ok((done, j)),
            Err(e) => Err(e),
        }
    }
}

/// The index expressions at the place `i`, each in brackets of its own,
/// behind those that are `done`.
fn parse_indexes(tokens: &Vec<Spanned>, i: usize, done: Vec<Expr>) -> (r: Result<
    (Vec<Expr>, usize),
    ParseError,
>)
    requires
        i <= tokens.len(),
    ensures
        exprs_parsed(r) == grammar::parse_indexes(
            tokens_view(tokens@),
            i as int,
            exprs_view(done@),
        ),
        r matches Ok((found, j)) ==> i <= j <= tokens.len() && found.len() >= done.len() && (
        grammar::token_is(tokens_view(tokens@), i as int, SpecToken::LeftBracket) ==> found.len()
            > done.len() && i < j),
    decreases left(tokens_view(tokens@), i as int), 0nat,
{
    if token_is(tokens, i, Mark::LeftBracket) {
        let (e, j) = match parse_expr_at(tokens, i + 1) {
            Ok(found) => found,
            Err(e) => {
                return Err(e);
            },
        };
        let k = match expect_mark(tokens, j, Mark::RightBracket) {
            Ok(k) => k,
            Err(e) => {
                return Err(e);
            },
        };
        let mut done = done;
        let ghost before = exprs_view(done@);
        done.push(e);
        assert(exprs_view(done@) =~= before.push(e@));
        parse_indexes(tokens, k, done)
    } else {
        Ok((done, i))
    }
}

/// The names at the place `i`, with commas between them, up to the closing
/// parenthesis.
fn parse_params(tokens: &Vec<Spanned>, i: usize) -> (r: Result<(Vec<String>, usize), ParseError>)
    requires
        i <= tokens.len(),
    ensures
        names_parsed(r) == grammar::parse_params(tokens_view(tokens@), i as int),
        r matches Ok((_, j)) ==> i < j <= tokens.len(),
{
    if token_is(tokens, i, Mark::RightParen) {
        let empty: Vec<String> = Vec::new();
        assert(strings_view(empty@) =~= Seq::<Seq<char>>::empty());
        return Ok((empty, i + 1));
    }
    let name = match expect_name(tokens, i) {
        Ok(name) => name,
        Err(e) => {
            return Err(e);
        },
    };
    let mut done: Vec<String> = Vec::new();
    done.push(name);
    assert(strings_view(done@) =~= seq![name@]);
    parse_params_rest(tokens, i + 1, done)
}

/// The names that begin with `done` and go on at the place `i`.
fn parse_params_rest(tokens: &Vec<Spanned>, i: usize, done: Vec<String>) -> (r: Result<
    (Vec<String>, usize),
    ParseError,
>)
    requires
        i <= tokens.len(),
    ensures
        names_parsed(r) == grammar::parse_params_rest(
            tokens_view(tokens@),
            i as int,
            strings_view(done@),
        ),
        r matches Ok((_, j)) ==> i < j <= tokens.len(),
    decreases left(tokens_view(tokens@), i as int),
{
    if token_is(tokens, i, Mark::Comma) {
        let name = match expect_name(tokens, i + 1) {
            Ok(name) => name,
            Err(e) => {
                return Err(e);
            },
        };
        let mut done = done;
        let ghost before = strings_view(done@);
        done.push(name);
        assert(strings_view(done@) =~= before.push(name@));
        parse_params_rest(tokens, i + 2, done)
    } else {
        match expect_mark(tokens, i, Mark::RightParen) {
            Ok(j) => Ok((done, j)),
            Err(e) => Err(e),
        }
    }
}

/// The expression at the place `i` and the semicolon behind it.
fn parse_expr_semicolon(tokens: &Vec<Spanned>, i: usize) -> (r: Result<(Expr, usize), ParseError>)
    ensures
        expr_parsed(r) == grammar::parse_expr_semicolon(tokens_view(tokens@), i as int),
        r matches Ok((_, j)) ==> i < j <= tokens.len(),
{
    let (e, j) = match parse_expr_at(tokens, i) {
        Ok(found) => found,
        Err(e) => {
            return Err(e);
        },
    };
    match expect_mark(tokens, j, Mark::Semicolon) {
        Ok(k) => Ok((e, k)),
        Err(e) => Err(e),
    }
}

/// The condition at the place `i`: an expression in parentheses.
fn parse_condition(tokens: &Vec<Spanned>, i: usize) -> (r: Result<(Expr, usize), ParseError>)
    ensures
        expr_parsed(r) == grammar::parse_condition(tokens_view(tokens@), i as int),
        r matches Ok((_, j)) ==> i < j <= tokens.len(),
{
    match expect_mark(tokens, i, Mark::LeftParen) {
        Ok(_) => {},
        Err(e) => {
            return Err(e);
        },
    }
    let (e, j) = match parse_expr_at(tokens, i + 1) {
        Ok(found) => found,
        Err(e) => {
            return Err(e);
        },
    };
    match expect_mark(tokens, j, Mark::RightParen) {
        Ok(k) => Ok((e, k)),
        Err(e) => Err(e),
    }
}

/// The statement at the place `i` that begins with the identifier `name`.
fn parse_ident_stmt(tokens: &Vec<Spanned>, i: usize, name: &String) -> (r: Result<
    (Statement, usize),
    ParseError,
>)
    requires
        i < tokens.len(),
    ensures
        stmt_parsed(r) == grammar::parse_ident_stmt(tokens_view(tokens@), i as int, name@),
        r matches Ok((_, j)) ==> i < j <= tokens.len(),
{
    let deleted: Option<String> = if is(name, "delete") {
        match peek(tokens, i + 1) {
            Some(Token::Ident(var)) => Some(var.clone()),
            _ => None,
        }
    } else {
        None
    };
    match deleted {
        Some(var) => {
            if !token_is(tokens, i + 2, Mark::LeftBracket) {
                return unexpected_at(tokens, i + 2);
            }
            let (mut indexes, j) = match parse_indexes(tokens, i + 2, Vec::new()) {
                Ok(found) => found,
                Err(e) => {
                    return Err(e);
                },
            };
            let k = match expect_mark(tokens, j, Mark::Semicolon) {
                Ok(k) => k,
                Err(e) => {
                    return Err(e);
                },
            };
            let ghost model = exprs_view(indexes@);
            let first = indexes.remove(0);
            assert(exprs_view(indexes@) =~= model.drop_first());
            return Ok((Statement::Delete(var, first, indexes), k));
        },
        None => {},
    }
    if token_is(tokens, i + 1, Mark::Equal) {
        match parse_expr_semicolon(tokens, i + 2) {
            Ok((e, j)) => Ok((Statement::VarAssign(name.clone(), e), j)),
            Err(e) => Err(e),
        }
    } else if token_is(tokens, i + 1, Mark::LeftBracket) {
        let (mut indexes, j) = match parse_indexes(tokens, i + 1, Vec::new()) {
            Ok(found) => found,
            Err(e) => {
                return Err(e);
            },
        };
        let k = match expect_mark(tokens, j, Mark::Equal) {
            Ok(k) => k,
            Err(e) => {
                return Err(e);
            },
        };
        let (e, m) = match parse_expr_semicolon(tokens, k) {
            Ok(found) => found,
            Err(e) => {
                return Err(e);
            },
        };
        let ghost model = exprs_view(indexes@);
        let first = indexes.remove(0);
        assert(exprs_view(indexes@) =~= model.drop_first());
        Ok((Statement::ArrayElemAssign(name.clone(), first, indexes, e), m))
    } else if token_is(tokens, i + 1, Mark::LeftParen) {
        let (args, j) = match parse_list(tokens, i + 2, Mark::RightParen) {
            Ok(found) => found,
            Err(e) => {
                return Err(e);
            },
        };
        match expect_mark(tokens, j, Mark::Semicolon) {
            Ok(k) => Ok((Statement::VoidCall(name.clone(), args), k)),
            Err(e) => Err(e),
        }
    } else {
        unexpected_at(tokens, i + 1)
    }
}

/// The type that the token names, if it is a type keyword.
fn type_of(t: &Token) -> (r: Option<Type>)
    ensures
        r == type_of_token(t@),
{
    match t {
        Token::Array => Some(Type::Array),
        Token::Boolean => Some(Type::Bool),
        Token::Int => Some(Type::Int),
        Token::Str => Some(Type::Str),
        Token::Void => Some(Type::Void),
        _ => None,
    }
}

/// A statement at the place `i`.
#[verifier::rlimit(20)]
pub fn parse_stmt_at(tokens: &Vec<Spanned>, i: usize) -> (r: Result<(Statement, usize), ParseError>)
    ensures
        stmt_parsed(r) == grammar::parse_stmt(tokens_view(tokens@), i as int),
        r matches Ok((_, j)) ==> i < j <= tokens.len(),
    decreases left(tokens_view(tokens@), i as int), 2nat,
{
    let token = match peek(tokens, i) {
        Some(t) => t,
        None => {
            return unexpected_at(tokens, i);
        },
    };
    match token {
        Token::Let => {
            let var = match expect_name(tokens, i + 1) {
                Ok(var) => var,
                Err(e) => {
                    return Err(e);
                },
            };
            match expect_mark(tokens, i + 2, Mark::Equal) {
                Ok(_) => {},
                Err(e) => {
                    return Err(e);
                },
            }
            match parse_expr_semicolon(tokens, i + 3) {
                Ok((e, j)) => Ok((Statement::Let(var, e), j)),
                Err(e) => Err(e),
            }
        },
        Token::Ident(name) => parse_ident_stmt(tokens, i, name),
        Token::If => parse_if(tokens, i),
        Token::While => {
            let (c, j) = match parse_condition(tokens, i + 1) {
                Ok(found) => found,
                Err(e) => {
                    return Err(e);
                },
            };
            match parse_block(tokens, j) {
                Ok((block, k)) => Ok((Statement::While(c, block), k)),
                Err(e) => Err(e),
            }
        },
        Token::For => {
            let var = match expect_name(tokens, i + 1) {
                Ok(var) => var,
                Err(e) => {
                    return Err(e);
                },
            };
            match expect_mark(tokens, i + 2, Mark::In) {
                Ok(_) => {},
                Err(e) => {
                    return Err(e);
                },
            }
            let (e, j) = match parse_expr_at(tokens, i + 3) {
                Ok(found) => found,
                Err(e) => {
                    return Err(e);
                },
            };
            match parse_block(tokens, j) {
                Ok((block, k)) => Ok((Statement::For(var, e, block), k)),
                Err(e) => Err(e),
            }
        },
        Token::Return => {
            match parse_expr_semicolon(tokens, i + 1) {
                Ok((e, j)) => Ok((Statement::Return(e), j)),
                Err(e) => Err(e),
            }
        },
        Token::Print => {
            match parse_expr_semicolon(tokens, i + 1) {
                Ok((e, j)) => Ok((Statement::Print(e), j)),
                Err(e) => Err(e),
            }
        },
        Token::PrintLine => {
            match parse_expr_semicolon(tokens, i + 1) {
                Ok((e, j)) => Ok((Statement::PrintLine(e), j)),
                Err(e) => Err(e),
            }
        },
        other => {
            let t = match type_of(other) {
                Some(t) => t,
                None => {
                    return unexpected_at(tokens, i);
                },
            };
            let name = match expect_name(tokens, i + 1) {
                Ok(name) => name,
                Err(e) => {
                    return Err(e);
                },
            };
            match expect_mark(tokens, i + 2, Mark::LeftParen) {
                Ok(_) => {},
                Err(e) => {
                    return Err(e);
                },
            }
            let (params, j) = match parse_params(tokens, i + 3) {
                Ok(found) => found,
                Err(e) => {
                    return Err(e);
                },
            };
            match parse_block(tokens, j) {
                Ok((body, k)) => Ok((Statement::Defun(t, name, params, body), k)),
                Err(e) => Err(e),
            }
        },
    }
}

/// The `if` statement at the place `i`, where `if` stands.
fn parse_if(tokens: &Vec<Spanned>, i: usize) -> (r: Result<(Statement, usize), ParseError>)
    requires
        i < tokens.len(),
    ensures
        stmt_parsed(r) == grammar::parse_if(tokens_view(tokens@), i as int),
        r matches Ok((_, j)) ==> i < j <= tokens.len(),
    decreases left(tokens_view(tokens@), i as int), 1nat,
{
    let (c, j) = match parse_condition(tokens, i + 1) {
        Ok(found) => found,
        Err(e) => {
            return Err(e);
        },
    };
    let (block1, k) = match parse_block(tokens, j) {
        Ok(found) => found,
        Err(e) => {
            return Err(e);
        },
    };
    if token_is(tokens, k, Mark::Else) {
        if token_is(tokens, k + 1, Mark::If) {
            match parse_if(tokens, k + 1) {
                Ok((nested, m)) => {
                    let mut block2: Vec<Statement> = Vec::new();
                    block2.push(nested);
                    assert(stmts_view(block2@) =~= seq![nested@]);
                    Ok((Statement::If(c, block1, block2), m))
                },
                Err(e) => Err(e),
            }
        } else {
            match parse_block(tokens, k + 1) {
                Ok((block2, m)) => Ok((Statement::If(c, block1, block2), m)),
                Err(e) => Err(e),
            }
        }
    } else {
        let block2: Vec<Statement> = Vec::new();
        assert(stmts_view(block2@) =~= Seq::<SpecStatement>::empty());
        Ok((Statement::If(c, block1, block2), k))
    }
}

/// The block at the place `i`: statements in braces.
fn parse_block(tokens: &Vec<Spanned>, i: usize) -> (r: Result<(Vec<Statement>, usize), ParseError>)
    requires
        i <= tokens.len(),
    ensures
        stmts_parsed(r) == grammar::parse_block(tokens_view(tokens@), i as int),
        r matches Ok((_, j)) ==> i < j <= tokens.len(),
    decreases left(tokens_view(tokens@), i as int), 0nat,
{
    match expect_mark(tokens, i, Mark::LeftBrace) {
        Ok(_) => {},
        Err(e) => {
            return Err(e);
        },
    }
    let empty: Vec<Statement> = Vec::new();
    assert(stmts_view(empty@) =~= Seq::<SpecStatement>::empty());
    let (stmts, j) = match parse_stmts(tokens, i + 1, empty) {
        Ok(found) => found,
        Err(e) => {
            return Err(e);
        },
    };
    match expect_mark(tokens, j, Mark::RightBrace) {
        Ok(k) => Ok((stmts, k)),
        Err(e) => Err(e),
    }
}

/// The statements at the place `i`, behind those that are `done`, up to a
/// closing brace or the end of the text.
fn parse_stmts(tokens: &Vec<Spanned>, i: usize, done: Vec<Statement>) -> (r: Result<
    (Vec<Statement>, usize),
    ParseError,
>)
    requires
        i <= tokens.len(),
    ensures
        stmts_parsed(r) == grammar::parse_stmts(tokens_view(tokens@), i as int, stmts_view(done@)),
        r matches Ok((_, j)) ==> i <= j <= tokens.len(),
    decreases left(tokens_view(tokens@), i as int), 3nat,
{
    if i >= tokens.len() || token_is(tokens, i, Mark::RightBrace) {
        return Ok((done, i));
    }
    let (s, j) = match parse_stmt_at(tokens, i) {
        Ok(found) => found,
        Err(e) => {
            return Err(e);
        },
    };
    let mut done = done;
    let ghost before = stmts_view(done@);
    done.push(s);
    assert(stmts_view(done@) =~= before.push(s@));
    parse_stmts(tokens, j, done)
}

/// The statements that the tokens make, in order.
pub fn parse_tokens(tokens: &Vec<Spanned>) -> (r: Result<Vec<Statement>, ParseError>)
    ensures
        match r {
            Ok(program) => parse_program_from(tokens_view(tokens@), 0, Seq::empty()) == Ok::<
                Seq<SpecStatement>,
                SpecParseError,
            >(stmts_view(program@)),
            Err(e) => parse_program_from(tokens_view(tokens@), 0, Seq::empty()) == Err::<
                Seq<SpecStatement>,
                SpecParseError,
            >(e@),
        },
{
    let ghost ts = tokens_view(tokens@);
    let mut program: Vec<Statement> = Vec::new();
    let mut i: usize = 0;
    assert(stmts_view(program@) =~= Seq::<SpecStatement>::empty());
    while i < tokens.len()
        invariant
            i <= tokens.len(),
            ts == tokens_view(tokens@),
            parse_program_from(ts, 0, Seq::empty()) == parse_program_from(
                ts,
                i as int,
                stmts_view(program@),
            ),
        decreases tokens.len() - i,
    {
        let (s, j) = match parse_stmt_at(tokens, i) {
            Ok(found) => found,
            Err(e) => {
                return Err(e);
            },
        };
        let ghost before = stmts_view(program@);
        program.push(s);
        assert(stmts_view(program@) =~= before.push(s@));
        i = j;
    }
    Ok(program)
}

/// The program that `input` holds: its statements in order.
pub fn parse_program(input: &str) -> (r: Result<Vec<Statement>, ParseError>)
    ensures
        match r {
            Ok(program) => grammar::parse_program_text(input@) == Ok::<
                Seq<SpecStatement>,
                SpecParseError,
            >(stmts_view(program@)),
            Err(e) => grammar::parse_program_text(input@) == Err::<
                Seq<SpecStatement>,
                SpecParseError,
            >(e@),
        },
{
    let tokens = match tokenize(input) {
        Ok(tokens) => tokens,
        Err(e) => {
            return Err(e);
        },
    };
    parse_tokens(&tokens)
}

/// The one statement that `input` holds.
pub fn parse_stmt(input: &str) -> (r: Result<Statement, ParseError>)
    ensures
        match r {
            Ok(stmt) => grammar::parse_stmt_text(input@) == Ok::<SpecStatement, SpecParseError>(
                stmt@,
            ),
            Err(e) => grammar::parse_stmt_text(input@) == Err::<SpecStatement, SpecParseError>(e@),
        },
{
    let tokens = match tokenize(input) {
        Ok(tokens) => tokens,
        Err(e) => {
            return Err(e);
        },
    };
    let (stmt, j) = match parse_stmt_at(&tokens, 0) {
        Ok(found) => found,
        Err(e) => {
            return Err(e);
        },
    };
    if j < tokens.len() {
        let token = (tokens[j].0, tokens[j].1.clone(), tokens[j].2);
        Err(ParseError::ExtraToken { token })
    } else {
        Ok(stmt)
    }
}

/// The one expression that `input` holds.
pub fn parse_expr(input: &str) -> (r: Result<Expr, ParseError>)
    ensures
        match r {
            Ok(e) => grammar::parse_expr_text(input@) == Ok::<SpecExpr, SpecParseError>(e@),
            Err(e) => grammar::parse_expr_text(input@) == Err::<SpecExpr, SpecParseError>(e@),
        },
{
    let tokens = match tokenize(input) {
        Ok(tokens) => tokens,
        Err(e) => {
            return Err(e);
        },
    };
    let (e, j) = match parse_expr_at(&tokens, 0) {
        Ok(found) => found,
        Err(e) => {
            return Err(e);
        },
    };
    if j < tokens.len() {
        let token = (tokens[j].0, tokens[j].1.clone(), tokens[j].2);
        Err(ParseError::ExtraToken { token })
    } else {
        Ok(e)
    }
}

} // verus!
