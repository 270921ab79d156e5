//! The grammar, as functions from a sequence of located tokens and a place
//! in it to the tree that is parsed there and the place behind it.

use crate::ast::{BinOp, SpecExpr, SpecStatement, SpecValue, Type};
use crate::text::parse_int_text;
use crate::token::{byte_offset, next_token, Lexed, SpecToken};
use vstd::prelude::*;

verus! {

/// A located token: the offset where it starts, the token, and the offset
/// where it ends.
pub type SpecSpanned = (int, SpecToken, int);

/// Mathematical model of a parse error.
pub enum SpecParseError {
    /// A number at `location` that does not fit in 64 bits.
    InvalidToken { location: int },
    /// The text ended where more was expected; `location` is the end of the
    /// last token.
    UnrecognizedEof { location: int },
    /// A token that cannot stand where it stands.
    UnrecognizedToken { token: SpecSpanned },
    /// A token behind the end of a complete statement.
    ExtraToken { token: SpecSpanned },
    /// A lexical error.
    User { location: int, message: Seq<char> },
}

/// What a parse from some place gives: a tree and the place behind it, or
/// an error.
pub type Parsed<T> = Result<(T, int), SpecParseError>;

/// The result `r` of a parse that began at the place `p`: a parse never
/// ends before the place where it began.
pub open spec fn fwd<T>(p: int, r: Parsed<T>) -> Parsed<T> {
    match r {
        Ok((tree, after)) => Ok(
            (
                tree,
                if after < p {
                    p
                } else {
                    after
                },
            ),
        ),
        Err(e) => Err(e),
    }
}

/// How many tokens stand at the place `i` and behind it.
pub open spec fn left(ts: Seq<SpecSpanned>, i: int) -> nat {
    if i < 0 {
        ts.len()
    } else if i <= ts.len() {
        (ts.len() - i) as nat
    } else {
        0
    }
}

/// The tokens of the text `s` from the place `pos` on, with their offsets
/// in bytes, or the first lexical error.
pub open spec fn tokens_from(s: Seq<char>, pos: int) -> Result<Seq<SpecSpanned>, SpecParseError>
    decreases (if pos < s.len() { s.len() - pos } else { 0 }),
{
    match next_token(s, pos) {
        Lexed::End => Ok(Seq::empty()),
        Lexed::Error { location, message, resume } => Err(
            SpecParseError::User { location: byte_offset(s, location), message },
        ),
        Lexed::Token { start, token, end } => if end <= pos {
            Ok(Seq::empty())
        } else {
            match tokens_from(s, end) {
                Ok(rest) => Ok(seq![(byte_offset(s, start), token, byte_offset(s, end))] + rest),
                Err(e) => Err(e),
            }
        },
    }
}

/// Whether the token at the place `i` is `t`.
pub open spec fn token_is(ts: Seq<SpecSpanned>, i: int, t: SpecToken) -> bool {
    0 <= i < ts.len() && ts[i].1 == t
}

/// The error for the place `i`, where nothing that is expected stands: the
/// token there, or the end of the text.
pub open spec fn unexpected(ts: Seq<SpecSpanned>, i: int) -> SpecParseError {
    if 0 <= i < ts.len() {
        SpecParseError::UnrecognizedToken { token: ts[i] }
    } else {
        SpecParseError::UnrecognizedEof {
            location: if ts.len() > 0 {
                ts.last().2
            } else {
                0
            },
        }
    }
}

/// The place behind the token `t`, which must stand at the place `i`.
pub open spec fn expect(ts: Seq<SpecSpanned>, i: int, t: SpecToken) -> Result<int, SpecParseError> {
    if token_is(ts, i, t) {
        Ok(i + 1)
    } else {
        Err(unexpected(ts, i))
    }
}

/// The identifier that must stand at the place `i`.
pub open spec fn expect_ident(ts: Seq<SpecSpanned>, i: int) -> Result<Seq<char>, SpecParseError> {
    if 0 <= i < ts.len() && ts[i].1 is Ident {
        Ok(ts[i].1->Ident_0)
    } else {
        Err(unexpected(ts, i))
    }
}

/// The binary operator that the token `t` stands for, if it is one of the
/// given level of precedence: 0 for `||`, the loosest, up to 5 for `* / %`.
pub open spec fn binary_op(t: SpecToken, level: nat) -> Option<BinOp> {
    if level == 0 {
        match t {
            SpecToken::DoubleBars => Some(BinOp::Or),
            _ => None,
        }
    } else if level == 1 {
        match t {
            SpecToken::DoubleAmp => Some(BinOp::And),
            _ => None,
        }
    } else if level == 2 {
        match t {
            SpecToken::DoubleEqual => Some(BinOp::Equal),
            SpecToken::NotEqual => Some(BinOp::NotEqual),
            _ => None,
        }
    } else if level == 3 {
        match t {
            SpecToken::GreaterOrEqual => Some(BinOp::GreaterOrEqual),
            SpecToken::GreaterThan => Some(BinOp::GreaterThan),
            SpecToken::LessOrEqual => Some(BinOp::LessOrEqual),
            SpecToken::LessThan => Some(BinOp::LessThan),
            _ => None,
        }
    } else if level == 4 {
        match t {
            SpecToken::Plus => Some(BinOp::Plus),
            SpecToken::Minus => Some(BinOp::Minus),
            SpecToken::DoublePlus => Some(BinOp::Concat),
            _ => None,
        }
    } else if level == 5 {
        match t {
            SpecToken::Star => Some(BinOp::Times),
            SpecToken::Slash => Some(BinOp::Divide),
            SpecToken::Percent => Some(BinOp::Modulus),
            _ => None,
        }
    } else {
        None
    }
}

/// The type that a type keyword names.
pub open spec fn type_of_token(t: SpecToken) -> Option<Type> {
    match t {
        SpecToken::Array => Some(Type::Array),
        SpecToken::Boolean => Some(Type::Bool),
        SpecToken::Int => Some(Type::Int),
        SpecToken::Str => Some(Type::Str),
        SpecToken::Void => Some(Type::Void),
        _ => None,
    }
}

/// An expression at the place `i`.
pub open spec fn parse_expr(ts: Seq<SpecSpanned>, i: int) -> Parsed<SpecExpr>
    decreases left(ts, i), 12nat,
{
    parse_level(ts, i, 0)
}

/// An expression at the place `i` whose binary operators are of the given
/// level or bind tighter. Operators of one level group to the left.
pub open spec fn parse_level(ts: Seq<SpecSpanned>, i: int, level: nat) -> Parsed<SpecExpr>
    decreases left(ts, i), (if level < 6 { 10 - level } else { 4 }) as nat,
{
    if level >= 6 {
        parse_unary(ts, i)
    } else {
        match fwd(i, parse_level(ts, i, level + 1)) {
            Ok((lhs, j)) => parse_level_rest(ts, j, level, lhs),
            Err(e) => Err(e),
        }
    }
}

/// The expression that begins with `lhs` and goes on at the place `i` with
/// operators of the given level and their right operands.
pub open spec fn parse_level_rest(ts: Seq<SpecSpanned>, i: int, level: nat, lhs: SpecExpr) -> Parsed<
    SpecExpr,
>
    decreases left(ts, i), 0nat,
{
    if 0 <= i < ts.len() && level < 6 && binary_op(ts[i].1, level) is Some {
        match fwd(i + 1, parse_level(ts, i + 1, level + 1)) {
            Ok((rhs, j)) => parse_level_rest(
                ts,
                j,
                level,
                SpecExpr::BinExp(Box::new(lhs), binary_op(ts[i].1, level)->0, Box::new(rhs)),
            ),
            Err(e) => Err(e),
        }
    } else {
        Ok((lhs, i))
    }
}

/// A negation or an atom at the place `i`.
pub open spec fn parse_unary(ts: Seq<SpecSpanned>, i: int) -> Parsed<SpecExpr>
    decreases left(ts, i), 3nat,
{
    if token_is(ts, i, SpecToken::Bang) {
        match fwd(i + 1, parse_unary(ts, i + 1)) {
            Ok((e, j)) => Ok((SpecExpr::Not(Box::new(e)), j)),
            Err(e) => Err(e),
        }
    } else {
        parse_atom(ts, i)
    }
}

/// An atom at the place `i`: a literal, an array, an expression in
/// parentheses, `range`, `step`, or what begins with an identifier.
pub open spec fn parse_atom(ts: Seq<SpecSpanned>, i: int) -> Parsed<SpecExpr>
    decreases left(ts, i), 2nat,
{
    if !(0 <= i < ts.len()) {
        Err(unexpected(ts, i))
    } else {
        match ts[i].1 {
            SpecToken::I64(text) => match parse_int_text(text) {
                Some(n) => Ok((SpecExpr::Value(SpecValue::Int(n)), i + 1)),
                None => Err(SpecParseError::InvalidToken { location: ts[i].0 }),
            },
            SpecToken::StringLiteral(text) => Ok((SpecExpr::Value(SpecValue::Str(text)), i + 1)),
            SpecToken::True => Ok((SpecExpr::Value(SpecValue::Bool(true)), i + 1)),
            SpecToken::False => Ok((SpecExpr::Value(SpecValue::Bool(false)), i + 1)),
            SpecToken::LeftBracket => match parse_list(ts, i + 1, SpecToken::RightBracket) {
                Ok((items, j)) => Ok((SpecExpr::Array(items), j)),
                Err(e) => Err(e),
            },
            SpecToken::LeftParen => match fwd(i + 1, parse_expr(ts, i + 1)) {
                Ok((e, j)) => match expect(ts, j, SpecToken::RightParen) {
                    Ok(k) => Ok((e, k)),
                    Err(e) => Err(e),
                },
                Err(e) => Err(e),
            },
            SpecToken::Range => match parse_list(ts, i + 2, SpecToken::RightParen) {
                Ok((args, j)) => if !token_is(ts, i + 1, SpecToken::LeftParen) {
                    Err(unexpected(ts, i + 1))
                } else if args.len() != 2 {
                    Err(unexpected(ts, j - 1))
                } else {
                    Ok((SpecExpr::Range(Box::new(args[0]), Box::new(args[1])), j))
                },
                Err(e) => if !token_is(ts, i + 1, SpecToken::LeftParen) {
                    Err(unexpected(ts, i + 1))
                } else {
                    Err(e)
                },
            },
            SpecToken::Step => match parse_list(ts, i + 2, SpecToken::RightParen) {
                Ok((args, j)) => if !token_is(ts, i + 1, SpecToken::LeftParen) {
                    Err(unexpected(ts, i + 1))
                } else if args.len() != 3 {
                    Err(unexpected(ts, j - 1))
                } else {
                    Ok(
                        (
                            SpecExpr::Step(
                                Box::new(args[0]),
                                Box::new(args[1]),
                                Box::new(args[2]),
                            ),
                            j,
                        ),
                    )
                },
                Err(e) => if !token_is(ts, i + 1, SpecToken::LeftParen) {
                    Err(unexpected(ts, i + 1))
                } else {
                    Err(e)
                },
            },
            SpecToken::Ident(name) => if token_is(ts, i + 1, SpecToken::LeftParen) {
                match parse_list(ts, i + 2, SpecToken::RightParen) {
                    Ok((args, j)) => if name == "length"@ {
                        if args.len() != 1 {
                            Err(unexpected(ts, j - 1))
                        } else {
                            Ok((SpecExpr::Length(Box::new(args[0])), j))
                        }
                    } else if name == "letters"@ {
                        if args.len() != 1 {
                            Err(unexpected(ts, j - 1))
                        } else {
                            Ok((SpecExpr::Letters(Box::new(args[0])), j))
                        }
                    } else if name == "readline"@ {
                        if args.len() != 0 {
                            Err(unexpected(ts, j - 1))
                        } else {
                            Ok((SpecExpr::ReadLine, j))
                        }
                    } else {
                        Ok((SpecExpr::Call(name, args), j))
                    },
                    Err(e) => Err(e),
                }
            } else if token_is(ts, i + 1, SpecToken::LeftBracket) {
                match parse_indexes(ts, i + 1, Seq::empty()) {
                    Ok((indexes, j)) => Ok(
                        (
                            SpecExpr::ArrayElement(
                                name,
                                Box::new(indexes[0]),
                                indexes.drop_first(),
                            ),
                            j,
                        ),
                    ),
                    Err(e) => Err(e),
                }
            } else {
                Ok((SpecExpr::Var(name), i + 1))
            },
            _ => Err(unexpected(ts, i)),
        }
    }
}

/// The expressions at the place `i`, with commas between them, up to the
/// token `close`, which ends the list: the expressions, and the place behind
/// `close`. The list may be empty.
pub open spec fn parse_list(ts: Seq<SpecSpanned>, i: int, close: SpecToken) -> Parsed<
    Seq<SpecExpr>,
>
    decreases left(ts, i), 14nat,
{
    if token_is(ts, i, close) {
        Ok((Seq::empty(), i + 1))
    } else {
        match fwd(i, parse_expr(ts, i)) {
            Ok((e, j)) => parse_list_rest(ts, j, close, seq![e]),
            Err(e) => Err(e),
        }
    }
}

/// The list that begins with `done` and goes on at the place `i` with a
/// comma and an expression, or ends there with `close`.
pub open spec fn parse_list_rest(
    ts: Seq<SpecSpanned>,
    i: int,
    close: SpecToken,
    done: Seq<SpecExpr>,
) -> Parsed<Seq<SpecExpr>>
    decreases left(ts, i), 0nat,
{
    if token_is(ts, i, SpecToken::Comma) {
        match fwd(i + 1, parse_expr(ts, i + 1)) {
            Ok((e, j)) => parse_list_rest(ts, j, close, done.push(e)),
            Err(e) => Err(e),
        }
    } else {
        match expect(ts, i, close) {
            Ok(j) => Ok((done, j)),
            Err(e) => Err(e),
        }
    }
}

/// The index expressions at the place `i`, each in brackets of its own,
/// behind those that are `done`.
pub open spec fn parse_indexes(ts: Seq<SpecSpanned>, i: int, done: Seq<SpecExpr>) -> Parsed<
    Seq<SpecExpr>,
>
    decreases left(ts, i), 0nat,
{
    if token_is(ts, i, SpecToken::LeftBracket) {
        match fwd(i + 1, parse_expr(ts, i + 1)) {
            Ok((e, j)) => match expect(ts, j, SpecToken::RightBracket) {
                Ok(k) => parse_indexes(ts, k, done.push(e)),
                Err(e) => Err(e),
            },
            Err(e) => Err(e),
        }
    } else {
        Ok((done, i))
    }
}

/// The names at the place `i`, with commas between them, up to the closing
/// parenthesis: the names, and the place behind the parenthesis.
pub open spec fn parse_params(ts: Seq<SpecSpanned>, i: int) -> Parsed<Seq<Seq<char>>> {
    if token_is(ts, i, SpecToken::RightParen) {
        Ok((Seq::empty(), i + 1))
    } else {
        match expect_ident(ts, i) {
            Ok(name) => parse_params_rest(ts, i + 1, seq![name]),
            Err(e) => Err(e),
        }
    }
}

/// The names that begin with `done` and go on at the place `i` with a comma
/// and a name, or end there with the closing parenthesis.
pub open spec fn parse_params_rest(ts: Seq<SpecSpanned>, i: int, done: Seq<Seq<char>>) -> Parsed<
    Seq<Seq<char>>,
>
    decreases left(ts, i),
{
    if token_is(ts, i, SpecToken::Comma) {
        match expect_ident(ts, i + 1) {
            Ok(name) => parse_params_rest(ts, i + 2, done.push(name)),
            Err(e) => Err(e),
        }
    } else {
        match expect(ts, i, SpecToken::RightParen) {
            Ok(j) => Ok((done, j)),
            Err(e) => Err(e),
        }
    }
}

/// The expression at the place `i` and the semicolon behind it: the
/// expression, and the place behind the semicolon.
pub open spec fn parse_expr_semicolon(ts: Seq<SpecSpanned>, i: int) -> Parsed<SpecExpr> {
    match fwd(i, parse_expr(ts, i)) {
        Ok((e, j)) => match expect(ts, j, SpecToken::Semicolon) {
            Ok(k) => Ok((e, k)),
            Err(e) => Err(e),
        },
        Err(e) => Err(e),
    }
}

/// The condition at the place `i`: an expression in parentheses.
pub open spec fn parse_condition(ts: Seq<SpecSpanned>, i: int) -> Parsed<SpecExpr> {
    match expect(ts, i, SpecToken::LeftParen) {
        Ok(_) => match fwd(i + 1, parse_expr(ts, i + 1)) {
            Ok((e, j)) => match expect(ts, j, SpecToken::RightParen) {
                Ok(k) => Ok((e, k)),
                Err(e) => Err(e),
            },
            Err(e) => Err(e),
        },
        Err(e) => Err(e),
    }
}

/// The statement at the place `i` that begins with the identifier `name`:
/// a `delete`, an assignment to a variable or to a cell of an array, or a call.
pub open spec fn parse_ident_stmt(ts: Seq<SpecSpanned>, i: int, name: Seq<char>) -> Parsed<
    SpecStatement,
> {
    if name == "delete"@ && 0 <= i + 1 < ts.len() && ts[i + 1].1 is Ident {
        let var = ts[i + 1].1->Ident_0;
        if !token_is(ts, i + 2, SpecToken::LeftBracket) {
            Err(unexpected(ts, i + 2))
        } else {
            match fwd(i + 2, parse_indexes(ts, i + 2, Seq::empty())) {
                Ok((indexes, j)) => match expect(ts, j, SpecToken::Semicolon) {
                    Ok(k) => Ok((SpecStatement::Delete(var, indexes[0], indexes.drop_first()), k)),
                    Err(e) => Err(e),
                },
                Err(e) => Err(e),
            }
        }
    } else if token_is(ts, i + 1, SpecToken::Equal) {
        match parse_expr_semicolon(ts, i + 2) {
            Ok((e, j)) => Ok((SpecStatement::VarAssign(name, e), j)),
            Err(e) => Err(e),
        }
    } else if token_is(ts, i + 1, SpecToken::LeftBracket) {
        match fwd(i + 1, parse_indexes(ts, i + 1, Seq::empty())) {
            Ok((indexes, j)) => match expect(ts, j, SpecToken::Equal) {
                Ok(k) => match parse_expr_semicolon(ts, k) {
                    Ok((e, m)) => Ok(
                        (
                            SpecStatement::ArrayElemAssign(
                                name,
                                indexes[0],
                                indexes.drop_first(),
                                e,
                            ),
                            m,
                        ),
                    ),
                    Err(e) => Err(e),
                },
                Err(e) => Err(e),
            },
            Err(e) => Err(e),
        }
    } else if token_is(ts, i + 1, SpecToken::LeftParen) {
        match fwd(i + 2, parse_list(ts, i + 2, SpecToken::RightParen)) {
            Ok((args, j)) => match expect(ts, j, SpecToken::Semicolon) {
                Ok(k) => Ok((SpecStatement::VoidCall(name, args), k)),
                Err(e) => Err(e),
            },
            Err(e) => Err(e),
        }
    } else {
        Err(unexpected(ts, i + 1))
    }
}

/// A statement at the place `i`.
pub open spec fn parse_stmt(ts: Seq<SpecSpanned>, i: int) -> Parsed<SpecStatement>
    decreases left(ts, i), 2nat,
{
    if !(0 <= i < ts.len()) {
        Err(unexpected(ts, i))
    } else {
        match ts[i].1 {
            SpecToken::Let => match expect_ident(ts, i + 1) {
                Ok(var) => match expect(ts, i + 2, SpecToken::Equal) {
                    Ok(_) => match parse_expr_semicolon(ts, i + 3) {
                        Ok((e, j)) => Ok((SpecStatement::Let(var, e), j)),
                        Err(e) => Err(e),
                    },
                    Err(e) => Err(e),
                },
                Err(e) => Err(e),
            },
            SpecToken::Ident(name) => parse_ident_stmt(ts, i, name),
            SpecToken::If => parse_if(ts, i),
            SpecToken::While => match fwd(i + 1, parse_condition(ts, i + 1)) {
                Ok((c, j)) => match fwd(j, parse_block(ts, j)) {
                    Ok((block, k)) => Ok((SpecStatement::While(c, block), k)),
                    Err(e) => Err(e),
                },
                Err(e) => Err(e),
            },
            SpecToken::For => match expect_ident(ts, i + 1) {
                Ok(var) => match expect(ts, i + 2, SpecToken::In) {
                    Ok(_) => match fwd(i + 3, parse_expr(ts, i + 3)) {
                        Ok((e, j)) => match fwd(j, parse_block(ts, j)) {
                            Ok((block, k)) => Ok((SpecStatement::For(var, e, block), k)),
                            Err(e) => Err(e),
                        },
                        Err(e) => Err(e),
                    },
                    Err(e) => Err(e),
                },
                Err(e) => Err(e),
            },
            SpecToken::Return => match parse_expr_semicolon(ts, i + 1) {
                Ok((e, j)) => Ok((SpecStatement::Return(e), j)),
                Err(e) => Err(e),
            },
            SpecToken::Print => match parse_expr_semicolon(ts, i + 1) {
                Ok((e, j)) => Ok((SpecStatement::Print(e), j)),
                Err(e) => Err(e),
            },
            SpecToken::PrintLine => match parse_expr_semicolon(ts, i + 1) {
                Ok((e, j)) => Ok((SpecStatement::PrintLine(e), j)),
                Err(e) => Err(e),
            },
            other => match type_of_token(other) {
                Some(t) => match expect_ident(ts, i + 1) {
                    Ok(name) => match expect(ts, i + 2, SpecToken::LeftParen) {
                        Ok(_) => match fwd(i + 3, parse_params(ts, i + 3)) {
                            Ok((params, j)) => match fwd(j, parse_block(ts, j)) {
                                Ok((body, k)) => Ok((SpecStatement::Defun(t, name, params, body), k)),
                                Err(e) => Err(e),
                            },
                            Err(e) => Err(e),
                        },
                        Err(e) => Err(e),
                    },
                    Err(e) => Err(e),
                },
                None => Err(unexpected(ts, i)),
            },
        }
    }
}

/// The `if` statement at the place `i`, where `if` stands. An `else if`
/// makes an `if` statement that is the whole of the `else` block.
pub open spec fn parse_if(ts: Seq<SpecSpanned>, i: int) -> Parsed<SpecStatement>
    decreases left(ts, i), 1nat,
{
    match fwd(i + 1, parse_condition(ts, i + 1)) {
        Ok((c, j)) => match fwd(j, parse_block(ts, j)) {
            Ok((block1, k)) => if token_is(ts, k, SpecToken::Else) {
                if token_is(ts, k + 1, SpecToken::If) {
                    match parse_if(ts, k + 1) {
                        Ok((nested, m)) => Ok((SpecStatement::If(c, block1, seq![nested]), m)),
                        Err(e) => Err(e),
                    }
                } else {
                    match parse_block(ts, k + 1) {
                        Ok((block2, m)) => Ok((SpecStatement::If(c, block1, block2), m)),
                        Err(e) => Err(e),
                    }
                }
            } else {
                Ok((SpecStatement::If(c, block1, Seq::empty()), k))
            },
            Err(e) => Err(e),
        },
        Err(e) => Err(e),
    }
}

/// The block at the place `i`: statements in braces.
pub open spec fn parse_block(ts: Seq<SpecSpanned>, i: int) -> Parsed<Seq<SpecStatement>>
    decreases left(ts, i), 0nat,
{
    match expect(ts, i, SpecToken::LeftBrace) {
        Ok(_) => match parse_stmts(ts, i + 1, Seq::empty()) {
            Ok((stmts, j)) => match expect(ts, j, SpecToken::RightBrace) {
                Ok(k) => Ok((stmts, k)),
                Err(e) => Err(e),
            },
            Err(e) => Err(e),
        },
        Err(e) => Err(e),
    }
}

/// The statements at the place `i`, behind those that are `done`, up to a
/// closing brace or the end of the text.
pub open spec fn parse_stmts(ts: Seq<SpecSpanned>, i: int, done: Seq<SpecStatement>) -> Parsed<
    Seq<SpecStatement>,
>
    decreases left(ts, i), 3nat,
{
    if !(0 <= i < ts.len()) || ts[i].1 == SpecToken::RightBrace {
        Ok((done, i))
    } else {
        match parse_stmt(ts, i) {
            Ok((s, j)) => if j <= i {
                Ok((done, i))
            } else {
                parse_stmts(ts, j, done.push(s))
            },
            Err(e) => Err(e),
        }
    }
}

/// The statements at the place `i`, behind those that are `done`, up to
/// the end of the text.
pub open spec fn parse_program_from(ts: Seq<SpecSpanned>, i: int, done: Seq<SpecStatement>) -> Result<
    Seq<SpecStatement>,
    SpecParseError,
>
    decreases left(ts, i),
{
    if !(0 <= i < ts.len()) {
        Ok(done)
    } else {
        match parse_stmt(ts, i) {
            Ok((s, j)) => if j <= i {
                Ok(done)
            } else {
                parse_program_from(ts, j, done.push(s))
            },
            Err(e) => Err(e),
        }
    }
}

/// The program that the text `s` holds: its statements in order.
pub open spec fn parse_program_text(s: Seq<char>) -> Result<Seq<SpecStatement>, SpecParseError> {
    match tokens_from(s, 0) {
        Ok(ts) => parse_program_from(ts, 0, Seq::empty()),
        Err(e) => Err(e),
    }
}

/// The one statement that the tokens `ts` make.
pub open spec fn parse_one(ts: Seq<SpecSpanned>) -> Result<SpecStatement, SpecParseError> {
    match parse_stmt(ts, 0) {
        Ok((stmt, j)) => if 0 <= j < ts.len() {
            Err(SpecParseError::ExtraToken { token: ts[j] })
        } else {
            Ok(stmt)
        },
        Err(e) => Err(e),
    }
}

/// The one statement that the text `s` holds.
pub open spec fn parse_stmt_text(s: Seq<char>) -> Result<SpecStatement, SpecParseError> {
    match tokens_from(s, 0) {
        Ok(ts) => parse_one(ts),
        Err(e) => Err(e),
    }
}

/// The one expression that the tokens `ts` make.
pub open spec fn parse_one_expr(ts: Seq<SpecSpanned>) -> Result<SpecExpr, SpecParseError> {
    match parse_expr(ts, 0) {
        Ok((e, j)) => if 0 <= j < ts.len() {
            Err(SpecParseError::ExtraToken { token: ts[j] })
        } else {
            Ok(e)
        },
        Err(e) => Err(e),
    }
}

/// The one expression that the text `s` holds.
pub open spec fn parse_expr_text(s: Seq<char>) -> Result<SpecExpr, SpecParseError> {
    match tokens_from(s, 0) {
        Ok(ts) => parse_one_expr(ts),
        Err(e) => Err(e),
    }
}

} // verus!
