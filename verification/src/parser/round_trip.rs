//! Parsing the text of an expression gives the expression again.

use crate::ast::{SpecExpr, SpecValue};
use crate::display::{expr_text, value_text};
use crate::eval::semantics::eval_expr;
use crate::parser::grammar::{parse_expr_text, tokens_from, SpecParseError};
use crate::parser::lexing::{lemma_lex_expr, lexes, text_at};
use crate::parser::printing::{expr_tokens, lemma_tokens_round_trip, printable, quotable};
use crate::parser::shape::lemma_parsed_text;
use crate::state::SpecState;
use crate::stream::SpecStream;
use crate::token::{next_token, skip_blanks, SpecToken};
use vstd::prelude::*;

verus! {

/// Where the tokenizer finds just the tokens `tokens` from the place `p` up
/// to the end of the text, the tokens of the text from `p` on are those, each
/// with its offsets.
pub proof fn lemma_lexes_tokens(s: Seq<char>, p: int, tokens: Seq<SpecToken>)
    requires
        0 <= p,
        lexes(s, p, tokens, s.len() as int),
    ensures
        tokens_from(s, p) matches Ok(ts) && ts.len() == tokens.len() && forall|k: int|
            0 <= k < tokens.len() ==> (#[trigger] ts[k]).1 == tokens[k],
    decreases tokens.len(),
{
    if tokens.len() == 0 {
        assert(skip_blanks(s, p) == p);
    } else {
        let end = next_token(s, p)->end;
        lemma_lexes_tokens(s, end, tokens.drop_first());
        let rest = tokens_from(s, end)->Ok_0;
        let ts = tokens_from(s, p)->Ok_0;
        assert forall|k: int| 0 <= k < tokens.len() implies (#[trigger] ts[k]).1 == tokens[k] by {
            if k > 0 {
                assert(ts[k] == rest[k - 1]);
                assert(tokens.drop_first()[k - 1] == tokens[k]);
            }
        }
    }
}

/// The text of a printable expression parses, and to the expression itself:
/// the parentheses that the text has are those that the grouping needs.
pub proof fn lemma_display_parse(e: SpecExpr)
    requires
        printable(e),
    ensures
        parse_expr_text(expr_text(e)) == Ok::<SpecExpr, SpecParseError>(e),
{
    let s = expr_text(e);
    assert(text_at(s, 0, s));
    lemma_lex_expr(e, s, 0);
    lemma_lexes_tokens(s, 0, expr_tokens(e));
    let ts = tokens_from(s, 0)->Ok_0;
    assert forall|k: int| 0 <= k < expr_tokens(e).len() implies (#[trigger] ts[0 + k]).1
        == expr_tokens(e)[k] by {
        assert(ts[k].1 == expr_tokens(e)[k]);
    }
    lemma_tokens_round_trip(e, ts);
}

/// For every expression that a text parses to, the expression's own text
/// parses to the expression again.
pub proof fn lemma_parse_display_parse(s: Seq<char>, e: SpecExpr)
    requires
        parse_expr_text(s) == Ok::<SpecExpr, SpecParseError>(e),
    ensures
        parse_expr_text(expr_text(e)) == Ok::<SpecExpr, SpecParseError>(e),
{
    lemma_parsed_text(s);
    lemma_display_parse(e);
}

/// For every expression that a text parses to, what the expression's own
/// text parses to has the evaluation of the expression, under every state,
/// with every mailbox and every budget.
pub proof fn lemma_display_keeps_evaluation(
    s: Seq<char>,
    e: SpecExpr,
    st: SpecState,
    io: SpecStream,
    fuel: nat,
)
    requires
        parse_expr_text(s) == Ok::<SpecExpr, SpecParseError>(e),
    ensures
        parse_expr_text(expr_text(e)) matches Ok(parsed) && eval_expr(parsed, st, io, fuel)
            == eval_expr(e, st, io, fuel),
{
    lemma_parse_display_parse(s, e);
}

/// The text of a value parses to the literal of that value, for every
/// integer, every boolean and every string that can stand between quotes.
pub proof fn lemma_literal_round_trip(v: SpecValue)
    requires
        match v {
            SpecValue::Array(_) => false,
            SpecValue::Str(text) => quotable(text),
            _ => true,
        },
    ensures
        parse_expr_text(value_text(v)) == Ok::<SpecExpr, SpecParseError>(SpecExpr::Value(v)),
{
    lemma_display_parse(SpecExpr::Value(v));
}

} // verus!
