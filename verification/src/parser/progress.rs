//! Every parse ends behind the place where it began, and within the tokens.

use crate::ast::{SpecExpr, SpecStatement};
use crate::parser::grammar::{
    binary_op, expect, expect_ident, fwd, left, parse_atom, parse_block, parse_condition,
    parse_expr, parse_expr_semicolon, parse_ident_stmt, parse_if, parse_indexes, parse_level,
    parse_level_rest, parse_list, parse_list_rest, parse_params, parse_params_rest, parse_stmt,
    parse_stmts, parse_unary, token_is, type_of_token, Parsed, SpecSpanned,
};
use crate::token::SpecToken;
use vstd::prelude::*;

verus! {

/// Whether a parse that began at the place `i` ended behind `i` and within
/// the tokens, if it ended well.
pub open spec fn advances<T>(ts: Seq<SpecSpanned>, i: int, r: Parsed<T>) -> bool {
    r matches Ok(found) ==> i < found.1 <= ts.len()
}

/// Whether a parse that began at the place `i` ended at `i` or behind it,
/// and within the tokens, if it ended well.
pub open spec fn goes_on<T>(ts: Seq<SpecSpanned>, i: int, r: Parsed<T>) -> bool {
    r matches Ok(found) ==> i <= found.1 <= ts.len()
}

/// The parse of an expression advances.
pub proof fn lemma_expr_advances(ts: Seq<SpecSpanned>, i: int)
    requires
        0 <= i,
    ensures
        advances(ts, i, parse_expr(ts, i)),
    decreases left(ts, i), 12nat,
{
    lemma_level_advances(ts, i, 0);
}

/// The parse of an expression at a level of precedence advances.
pub proof fn lemma_level_advances(ts: Seq<SpecSpanned>, i: int, level: nat)
    requires
        0 <= i,
    ensures
        advances(ts, i, parse_level(ts, i, level)),
    decreases left(ts, i), (if level < 6 { 10 - level } else { 4 }) as nat,
{
    if level >= 6 {
        lemma_unary_advances(ts, i);
    } else {
        lemma_level_advances(ts, i, level + 1);
        match fwd(i, parse_level(ts, i, level + 1)) {
            Ok((lhs, j)) => {
                lemma_level_rest_goes_on(ts, j, level, lhs);
            },
            Err(_) => {},
        }
    }
}

/// The parse of operators and right operands goes on.
pub proof fn lemma_level_rest_goes_on(ts: Seq<SpecSpanned>, i: int, level: nat, lhs: SpecExpr)
    requires
        0 <= i <= ts.len(),
    ensures
        goes_on(ts, i, parse_level_rest(ts, i, level, lhs)),
    decreases left(ts, i), 0nat,
{
    if 0 <= i < ts.len() && level < 6 && binary_op(ts[i].1, level) is Some {
        lemma_level_advances(ts, i + 1, level + 1);
        match fwd(i + 1, parse_level(ts, i + 1, level + 1)) {
            Ok((rhs, j)) => {
                lemma_level_rest_goes_on(
                    ts,
                    j,
                    level,
                    SpecExpr::BinExp(Box::new(lhs), binary_op(ts[i].1, level)->0, Box::new(rhs)),
                );
            },
            Err(_) => {},
        }
    }
}

/// The parse of a negation or an atom advances.
pub proof fn lemma_unary_advances(ts: Seq<SpecSpanned>, i: int)
    requires
        0 <= i,
    ensures
        advances(ts, i, parse_unary(ts, i)),
    decreases left(ts, i), 3nat,
{
    if token_is(ts, i, SpecToken::Bang) {
        lemma_unary_advances(ts, i + 1);
    } else {
        lemma_atom_advances(ts, i);
    }
}

/// The parse of an atom advances.
pub proof fn lemma_atom_advances(ts: Seq<SpecSpanned>, i: int)
    requires
        0 <= i,
    ensures
        advances(ts, i, parse_atom(ts, i)),
    decreases left(ts, i), 2nat,
{
    if 0 <= i < ts.len() {
        match ts[i].1 {
            SpecToken::LeftBracket => {
                lemma_list_advances(ts, i + 1, SpecToken::RightBracket);
            },
            SpecToken::LeftParen => {
                lemma_expr_advances(ts, i + 1);
            },
            SpecToken::Range => {
                lemma_list_advances(ts, i + 2, SpecToken::RightParen);
            },
            SpecToken::Step => {
                lemma_list_advances(ts, i + 2, SpecToken::RightParen);
            },
            SpecToken::Ident(name) => {
                lemma_list_advances(ts, i + 2, SpecToken::RightParen);
                if token_is(ts, i + 1, SpecToken::LeftBracket) {
                    lemma_indexes_go_on(ts, i + 1, Seq::empty());
                }
            },
            _ => {},
        }
    }
}

/// The parse of a list advances.
pub proof fn lemma_list_advances(ts: Seq<SpecSpanned>, i: int, close: SpecToken)
    requires
        0 <= i,
    ensures
        advances(ts, i, parse_list(ts, i, close)),
    decreases left(ts, i), 14nat,
{
    if !token_is(ts, i, close) {
        lemma_expr_advances(ts, i);
        match fwd(i, parse_expr(ts, i)) {
            Ok((e, j)) => {
                lemma_list_rest_advances(ts, j, close, seq![e]);
            },
            Err(_) => {},
        }
    }
}

/// The parse of the rest of a list advances.
pub proof fn lemma_list_rest_advances(
    ts: Seq<SpecSpanned>,
    i: int,
    close: SpecToken,
    done: Seq<SpecExpr>,
)
    requires
        0 <= i,
    ensures
        advances(ts, i, parse_list_rest(ts, i, close, done)),
    decreases left(ts, i), 0nat,
{
    if token_is(ts, i, SpecToken::Comma) {
        lemma_expr_advances(ts, i + 1);
        match fwd(i + 1, parse_expr(ts, i + 1)) {
            Ok((e, j)) => {
                lemma_list_rest_advances(ts, j, close, done.push(e));
            },
            Err(_) => {},
        }
    }
}

/// The parse of a chain of indexes goes on, and advances where an opening
/// bracket stands.
pub proof fn lemma_indexes_go_on(ts: Seq<SpecSpanned>, i: int, done: Seq<SpecExpr>)
    requires
        0 <= i <= ts.len(),
    ensures
        goes_on(ts, i, parse_indexes(ts, i, done)),
        token_is(ts, i, SpecToken::LeftBracket) ==> advances(ts, i, parse_indexes(ts, i, done)),
    decreases left(ts, i), 0nat,
{
    if token_is(ts, i, SpecToken::LeftBracket) {
        lemma_expr_advances(ts, i + 1);
        match fwd(i + 1, parse_expr(ts, i + 1)) {
            Ok((e, j)) => {
                match expect(ts, j, SpecToken::RightBracket) {
                    Ok(k) => {
                        lemma_indexes_go_on(ts, k, done.push(e));
                    },
                    Err(_) => {},
                }
            },
            Err(_) => {},
        }
    }
}

/// The parse of the parameters of a function advances.
pub proof fn lemma_params_advance(ts: Seq<SpecSpanned>, i: int)
    requires
        0 <= i,
    ensures
        advances(ts, i, parse_params(ts, i)),
{
    if !token_is(ts, i, SpecToken::RightParen) {
        match expect_ident(ts, i) {
            Ok(name) => {
                lemma_params_rest_advance(ts, i + 1, seq![name]);
            },
            Err(_) => {},
        }
    }
}

/// The parse of the rest of the parameters of a function advances.
pub proof fn lemma_params_rest_advance(ts: Seq<SpecSpanned>, i: int, done: Seq<Seq<char>>)
    requires
        0 <= i,
    ensures
        advances(ts, i, parse_params_rest(ts, i, done)),
    decreases left(ts, i),
{
    if token_is(ts, i, SpecToken::Comma) {
        match expect_ident(ts, i + 1) {
            Ok(name) => {
                lemma_params_rest_advance(ts, i + 2, done.push(name));
            },
            Err(_) => {},
        }
    }
}

/// The parse of an expression and the semicolon behind it advances.
pub proof fn lemma_expr_semicolon_advances(ts: Seq<SpecSpanned>, i: int)
    requires
        0 <= i,
    ensures
        advances(ts, i, parse_expr_semicolon(ts, i)),
{
    lemma_expr_advances(ts, i);
}

/// The parse of a condition advances.
pub proof fn lemma_condition_advances(ts: Seq<SpecSpanned>, i: int)
    requires
        0 <= i,
    ensures
        advances(ts, i, parse_condition(ts, i)),
{
    lemma_expr_advances(ts, i + 1);
}

/// The parse of a statement that begins with an identifier advances.
pub proof fn lemma_ident_stmt_advances(ts: Seq<SpecSpanned>, i: int, name: Seq<char>)
    requires
        0 <= i,
    ensures
        advances(ts, i, parse_ident_stmt(ts, i, name)),
{
    if token_is(ts, i + 2, SpecToken::LeftBracket) {
        lemma_indexes_go_on(ts, i + 2, Seq::empty());
    }
    lemma_expr_semicolon_advances(ts, i + 2);
    if token_is(ts, i + 1, SpecToken::LeftBracket) {
        lemma_indexes_go_on(ts, i + 1, Seq::empty());
        match fwd(i + 1, parse_indexes(ts, i + 1, Seq::empty())) {
            Ok((indexes, j)) => {
                match expect(ts, j, SpecToken::Equal) {
                    Ok(k) => {
                        lemma_expr_semicolon_advances(ts, k);
                    },
                    Err(_) => {},
                }
            },
            Err(_) => {},
        }
    }
    lemma_list_advances(ts, i + 2, SpecToken::RightParen);
}

/// The parse of a statement advances.
pub proof fn lemma_stmt_advances(ts: Seq<SpecSpanned>, i: int)
    requires
        0 <= i,
    ensures
        advances(ts, i, parse_stmt(ts, i)),
    decreases left(ts, i), 2nat,
{
    if 0 <= i < ts.len() {
        match ts[i].1 {
            SpecToken::Let => {
                lemma_expr_semicolon_advances(ts, i + 3);
            },
            SpecToken::Ident(name) => {
                lemma_ident_stmt_advances(ts, i, name);
            },
            SpecToken::If => {
                lemma_if_advances(ts, i);
            },
            SpecToken::While => {
                lemma_condition_advances(ts, i + 1);
                match fwd(i + 1, parse_condition(ts, i + 1)) {
                    Ok((c, j)) => {
                        lemma_block_advances(ts, j);
                    },
                    Err(_) => {},
                }
            },
            SpecToken::For => {
                lemma_expr_advances(ts, i + 3);
                match fwd(i + 3, parse_expr(ts, i + 3)) {
                    Ok((e, j)) => {
                        lemma_block_advances(ts, j);
                    },
                    Err(_) => {},
                }
            },
            SpecToken::Return => {
                lemma_expr_semicolon_advances(ts, i + 1);
            },
            SpecToken::Print => {
                lemma_expr_semicolon_advances(ts, i + 1);
            },
            SpecToken::PrintLine => {
                lemma_expr_semicolon_advances(ts, i + 1);
            },
            other => {
                if type_of_token(other) is Some {
                    lemma_params_advance(ts, i + 3);
                    match fwd(i + 3, parse_params(ts, i + 3)) {
                        Ok((params, j)) => {
                            lemma_block_advances(ts, j);
                        },
                        Err(_) => {},
                    }
                }
            },
        }
    }
}

/// The parse of an `if` statement advances.
pub proof fn lemma_if_advances(ts: Seq<SpecSpanned>, i: int)
    requires
        0 <= i,
    ensures
        advances(ts, i, parse_if(ts, i)),
    decreases left(ts, i), 1nat,
{
    lemma_condition_advances(ts, i + 1);
    match fwd(i + 1, parse_condition(ts, i + 1)) {
        Ok((c, j)) => {
            lemma_block_advances(ts, j);
            match fwd(j, parse_block(ts, j)) {
                Ok((block1, k)) => {
                    if token_is(ts, k, SpecToken::Else) {
                        if token_is(ts, k + 1, SpecToken::If) {
                            lemma_if_advances(ts, k + 1);
                        } else {
                            lemma_block_advances(ts, k + 1);
                        }
                    }
                },
                Err(_) => {},
            }
        },
        Err(_) => {},
    }
}

/// The parse of a block advances.
pub proof fn lemma_block_advances(ts: Seq<SpecSpanned>, i: int)
    requires
        0 <= i,
    ensures
        advances(ts, i, parse_block(ts, i)),
    decreases left(ts, i), 0nat,
{
    if token_is(ts, i, SpecToken::LeftBrace) {
        lemma_stmts_go_on(ts, i + 1, Seq::empty());
    }
}

/// The parse of the statements of a block goes on.
pub proof fn lemma_stmts_go_on(ts: Seq<SpecSpanned>, i: int, done: Seq<SpecStatement>)
    requires
        0 <= i <= ts.len(),
    ensures
        goes_on(ts, i, parse_stmts(ts, i, done)),
    decreases left(ts, i), 3nat,
{
    if 0 <= i < ts.len() && ts[i].1 != SpecToken::RightBrace {
        lemma_stmt_advances(ts, i);
        match parse_stmt(ts, i) {
            Ok((s, j)) => {
                lemma_stmts_go_on(ts, j, done.push(s));
            },
            Err(_) => {},
        }
    }
}

} // verus!
