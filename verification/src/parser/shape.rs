//! What every expression that the parser gives is like: its names are
//! identifiers, its calls are of no built-in function, and its string
//! literals can stand between quotes.

use crate::ast::SpecExpr;
use crate::parser::grammar::{
    binary_op, expect, fwd, left, parse_atom, parse_expr, parse_expr_text, parse_indexes,
    parse_level, parse_level_rest, parse_list, parse_list_rest, parse_unary, token_is, tokens_from,
    SpecSpanned,
};
use crate::parser::lexing::{lemma_string_end_at, text_at};
use crate::parser::printing::{all_printable, is_name, printable, quotable};
use crate::token::{
    identifier_continue, identifier_start, lemma_skip_blanks, lemma_string_end,
    lemma_token_advances, lemma_word_end, next_token, skip_blanks, string_end, word_end, Lexed,
    SpecToken,
};
use vstd::prelude::*;

verus! {

/// Each of the expressions of a printable list is printable, and so are
/// all but the first of them together.
pub proof fn lemma_printable_items(items: Seq<SpecExpr>)
    requires
        all_printable(items),
    ensures
        forall|k: int| 0 <= k < items.len() ==> printable(#[trigger] items[k]),
        items.len() > 0 ==> all_printable(items.drop_first()),
    decreases items.len(),
{
    if items.len() > 0 {
        let before = items.drop_last();
        lemma_printable_items(before);
        assert forall|k: int| 0 <= k < items.len() implies printable(#[trigger] items[k]) by {
            if k < items.len() - 1 {
                assert(items[k] == before[k]);
            }
        }
        if items.len() > 1 {
            assert(items.drop_first().drop_last() =~= before.drop_first());
            assert(items.drop_first().last() == items.last());
        } else {
            assert(items.drop_first() =~= Seq::<SpecExpr>::empty());
        }
    }
}

/// Whether the token is as the tokenizer gives it: an identifier is a
/// name, and a string literal can stand between quotes.
pub open spec fn well_lexed(token: SpecToken) -> bool {
    match token {
        SpecToken::Ident(name) => is_name(name),
        SpecToken::StringLiteral(text) => quotable(text),
        _ => true,
    }
}

/// Whether each of the tokens is as the tokenizer gives it.
pub open spec fn all_well_lexed(ts: Seq<SpecSpanned>) -> bool {
    forall|k: int| 0 <= k < ts.len() ==> well_lexed((#[trigger] ts[k]).1)
}

/// All that stands from `p` up to the end of a word is what an identifier
/// goes on with.
pub proof fn lemma_word_chars(s: Seq<char>, p: int)
    requires
        0 <= p <= s.len(),
    ensures
        forall|k: int| p <= k < word_end(s, p) ==> identifier_continue(#[trigger] s[k]),
    decreases s.len() - p,
{
    if p < s.len() && identifier_continue(s[p]) {
        lemma_word_chars(s, p + 1);
    }
}

/// An identifier that the tokenizer finds is a name, and a string literal
/// that it finds can stand between quotes.
pub proof fn lemma_token_well_lexed(s: Seq<char>, pos: int)
    requires
        0 <= pos <= s.len(),
    ensures
        next_token(s, pos) matches Lexed::Token { start, token, end } ==> well_lexed(token),
{
    lemma_skip_blanks(s, pos);
    let i = skip_blanks(s, pos);
    if i < s.len() {
        if next_token(s, pos) is Token && next_token(s, pos)->token is StringLiteral {
            lemma_string_end(s, i + 1, false);
            let j = string_end(s, i + 1, false)->0;
            let text = s.subrange(i + 1, j);
            assert(text_at(s, i + 1, text.push('"')));
            lemma_string_end_at(s, i + 1, text.push('"'), 0, false);
        }
        lemma_word_end(s, i + 1);
        lemma_word_chars(s, i + 1);
        let end = word_end(s, i + 1);
        let w = s.subrange(i, end);
        if next_token(s, pos) is Token && next_token(s, pos)->token is Ident {
            assert(identifier_start(s[i]));
            assert(w[0] == s[i]);
            assert forall|k: int| 1 <= k < w.len() implies identifier_continue(#[trigger] w[k]) by {
                assert(w[k] == s[i + k]);
            }
        }
    }
}

/// Each of the tokens of a text is as the tokenizer gives it.
pub proof fn lemma_tokens_well_lexed(s: Seq<char>, pos: int)
    requires
        0 <= pos <= s.len(),
    ensures
        tokens_from(s, pos) matches Ok(ts) ==> all_well_lexed(ts),
    decreases s.len() - pos,
{
    lemma_token_well_lexed(s, pos);
    lemma_token_advances(s, pos);
    match next_token(s, pos) {
        Lexed::Token { start, token, end } => {
            lemma_tokens_well_lexed(s, end);
            match tokens_from(s, pos) {
                Ok(ts) => {
                    let rest = tokens_from(s, end)->Ok_0;
                    assert forall|k: int| 0 <= k < ts.len() implies well_lexed(
                        (#[trigger] ts[k]).1,
                    ) by {
                        if k > 0 {
                            assert(ts[k] == rest[k - 1]);
                        }
                    }
                },
                Err(_) => {},
            }
        },
        _ => {},
    }
}

/// What the parser gives as an expression is printable.
pub proof fn lemma_parsed_expr(ts: Seq<SpecSpanned>, i: int)
    requires
        all_well_lexed(ts),
    ensures
        parse_expr(ts, i) matches Ok(found) ==> printable(found.0),
    decreases left(ts, i), 12nat,
{
    lemma_parsed_level(ts, i, 0);
}

/// What the parser gives at a level of precedence is printable.
pub proof fn lemma_parsed_level(ts: Seq<SpecSpanned>, i: int, level: nat)
    requires
        all_well_lexed(ts),
    ensures
        parse_level(ts, i, level) matches Ok(found) ==> printable(found.0),
    decreases left(ts, i), (if level < 6 { 10 - level } else { 4 }) as nat,
{
    if level >= 6 {
        lemma_parsed_unary(ts, i);
    } else {
        lemma_parsed_level(ts, i, level + 1);
        match fwd(i, parse_level(ts, i, level + 1)) {
            Ok((lhs, j)) => {
                lemma_parsed_level_rest(ts, j, level, lhs);
            },
            Err(_) => {},
        }
    }
}

/// What the parser makes of a printable left operand and what follows it
/// is printable.
pub proof fn lemma_parsed_level_rest(ts: Seq<SpecSpanned>, i: int, level: nat, lhs: SpecExpr)
    requires
        all_well_lexed(ts),
        printable(lhs),
    ensures
        parse_level_rest(ts, i, level, lhs) matches Ok(found) ==> printable(found.0),
    decreases left(ts, i), 0nat,
{
    if 0 <= i < ts.len() && level < 6 && binary_op(ts[i].1, level) is Some {
        lemma_parsed_level(ts, i + 1, level + 1);
        match fwd(i + 1, parse_level(ts, i + 1, level + 1)) {
            Ok((rhs, j)) => {
                lemma_parsed_level_rest(
                    ts,
                    j,
                    level,
                    SpecExpr::BinExp(Box::new(lhs), binary_op(ts[i].1, level)->0, Box::new(rhs)),
                );
            },
            Err(_) => {},
        }
    }
}

/// What the parser gives as a negation or an atom is printable.
pub proof fn lemma_parsed_unary(ts: Seq<SpecSpanned>, i: int)
    requires
        all_well_lexed(ts),
    ensures
        parse_unary(ts, i) matches Ok(found) ==> printable(found.0),
    decreases left(ts, i), 3nat,
{
    if token_is(ts, i, SpecToken::Bang) {
        lemma_parsed_unary(ts, i + 1);
    } else {
        lemma_parsed_atom(ts, i);
    }
}

/// What the parser gives as an atom is printable.
pub proof fn lemma_parsed_atom(ts: Seq<SpecSpanned>, i: int)
    requires
        all_well_lexed(ts),
    ensures
        parse_atom(ts, i) matches Ok(found) ==> printable(found.0),
    decreases left(ts, i), 2nat,
{
    if 0 <= i < ts.len() {
        match ts[i].1 {
            SpecToken::LeftBracket => {
                lemma_parsed_list(ts, i + 1, SpecToken::RightBracket);
            },
            SpecToken::LeftParen => {
                lemma_parsed_expr(ts, i + 1);
            },
            SpecToken::Range => {
                lemma_parsed_list(ts, i + 2, SpecToken::RightParen);
                match parse_list(ts, i + 2, SpecToken::RightParen) {
                    Ok(found) => {
                        lemma_printable_items(found.0);
                    },
                    Err(_) => {},
                }
            },
            SpecToken::Step => {
                lemma_parsed_list(ts, i + 2, SpecToken::RightParen);
                match parse_list(ts, i + 2, SpecToken::RightParen) {
                    Ok(found) => {
                        lemma_printable_items(found.0);
                    },
                    Err(_) => {},
                }
            },
            SpecToken::Ident(name) => {
                assert(is_name(name));
                lemma_parsed_list(ts, i + 2, SpecToken::RightParen);
                match parse_list(ts, i + 2, SpecToken::RightParen) {
                    Ok(found) => {
                        lemma_printable_items(found.0);
                    },
                    Err(_) => {},
                }
                lemma_parsed_indexes(ts, i + 1, Seq::empty());
                match parse_indexes(ts, i + 1, Seq::empty()) {
                    Ok(found) => {
                        lemma_printable_items(found.0);
                    },
                    Err(_) => {},
                }
            },
            _ => {},
        }
    }
}

/// The expressions that the parser gives as a list are printable.
pub proof fn lemma_parsed_list(ts: Seq<SpecSpanned>, i: int, close: SpecToken)
    requires
        all_well_lexed(ts),
    ensures
        parse_list(ts, i, close) matches Ok(found) ==> all_printable(found.0),
    decreases left(ts, i), 14nat,
{
    if !token_is(ts, i, close) {
        lemma_parsed_expr(ts, i);
        match fwd(i, parse_expr(ts, i)) {
            Ok((e, j)) => {
                assert(seq![e].drop_last() =~= Seq::<SpecExpr>::empty());
                assert(all_printable(Seq::<SpecExpr>::empty()));
                lemma_parsed_list_rest(ts, j, close, seq![e]);
            },
            Err(_) => {},
        }
    }
}

/// The expressions that the parser gives as a list, behind printable ones
/// that are done, are printable.
pub proof fn lemma_parsed_list_rest(
    ts: Seq<SpecSpanned>,
    i: int,
    close: SpecToken,
    done: Seq<SpecExpr>,
)
    requires
        all_well_lexed(ts),
        all_printable(done),
    ensures
        parse_list_rest(ts, i, close, done) matches Ok(found) ==> all_printable(found.0),
    decreases left(ts, i), 0nat,
{
    if token_is(ts, i, SpecToken::Comma) {
        lemma_parsed_expr(ts, i + 1);
        match fwd(i + 1, parse_expr(ts, i + 1)) {
            Ok((e, j)) => {
                assert(done.push(e).drop_last() =~= done);
                lemma_parsed_list_rest(ts, j, close, done.push(e));
            },
            Err(_) => {},
        }
    }
}

/// The indexes that the parser gives, behind printable ones that are
/// done, are printable.
pub proof fn lemma_parsed_indexes(ts: Seq<SpecSpanned>, i: int, done: Seq<SpecExpr>)
    requires
        all_well_lexed(ts),
        all_printable(done),
    ensures
        parse_indexes(ts, i, done) matches Ok(found) ==> all_printable(found.0) && found.0.len()
            >= done.len() && (token_is(ts, i, SpecToken::LeftBracket)
            ==> found.0.len() > done.len()),
    decreases left(ts, i), 0nat,
{
    if token_is(ts, i, SpecToken::LeftBracket) {
        lemma_parsed_expr(ts, i + 1);
        match fwd(i + 1, parse_expr(ts, i + 1)) {
            Ok((e, j)) => {
                match expect(ts, j, SpecToken::RightBracket) {
                    Ok(k) => {
                        assert(done.push(e).drop_last() =~= done);
                        lemma_parsed_indexes(ts, k, done.push(e));
                    },
                    Err(_) => {},
                }
            },
            Err(_) => {},
        }
    }
}

/// Every expression that a text parses to is printable.
pub proof fn lemma_parsed_text(s: Seq<char>)
    ensures
        parse_expr_text(s) matches Ok(e) ==> printable(e),
{
    lemma_tokens_well_lexed(s, 0);
    match tokens_from(s, 0) {
        Ok(ts) => {
            lemma_parsed_expr(ts, 0);
        },
        Err(_) => {},
    }
}

} // verus!
