//! The tokens of the text of an expression, and the proof that the parser
//! reads an expression back from them.

use crate::ast::{BinOp, SpecExpr, SpecValue};
use crate::parser::grammar::{
    binary_op, parse_atom, parse_expr, parse_indexes, parse_level, parse_level_rest, parse_list,
    parse_list_rest, parse_one_expr, parse_unary, token_is, SpecParseError, SpecSpanned,
};
use crate::text::{int_text, lemma_int_text_round_trip};
use crate::token::{identifier_continue, identifier_start, string_end, word_token, SpecToken};
use vstd::prelude::*;

verus! {

/// The token that stands for a binary operator.
pub open spec fn op_token(op: BinOp) -> SpecToken {
    match op {
        BinOp::And => SpecToken::DoubleAmp,
        BinOp::Or => SpecToken::DoubleBars,
        BinOp::Equal => SpecToken::DoubleEqual,
        BinOp::NotEqual => SpecToken::NotEqual,
        BinOp::GreaterOrEqual => SpecToken::GreaterOrEqual,
        BinOp::GreaterThan => SpecToken::GreaterThan,
        BinOp::LessOrEqual => SpecToken::LessOrEqual,
        BinOp::LessThan => SpecToken::LessThan,
        BinOp::Plus => SpecToken::Plus,
        BinOp::Minus => SpecToken::Minus,
        BinOp::Times => SpecToken::Star,
        BinOp::Divide => SpecToken::Slash,
        BinOp::Modulus => SpecToken::Percent,
        BinOp::Concat => SpecToken::DoublePlus,
    }
}

/// The level of precedence of an expression: 0 for the loosest binary
/// operator up to 5 for the tightest, and 6 for what is no binary expression.
pub open spec fn level_of(e: SpecExpr) -> nat {
    e.precedence().spec_level()
}

/// Whether `name` can stand as an identifier: it begins like one, goes on
/// like one, and is no keyword.
pub open spec fn is_name(name: Seq<char>) -> bool {
    &&& name.len() > 0
    &&& identifier_start(name[0])
    &&& forall|k: int| 1 <= k < name.len() ==> identifier_continue(#[trigger] name[k])
    &&& word_token(name) == SpecToken::Ident(name)
}

/// Whether `text` can stand between the quotes of a string literal: the
/// quote that ends the literal is the one behind the text.
pub open spec fn quotable(text: Seq<char>) -> bool {
    string_end(text.push('"'), 0, false) == Some(text.len() as int)
}

/// Whether the expression is one whose text the parser reads back: its
/// names are identifiers, its literals are integers, booleans and strings
/// that can stand between quotes, and a call is of none of `length`,
/// `letters` and `readline`.
pub open spec fn printable(e: SpecExpr) -> bool
    decreases e,
{
    match e {
        SpecExpr::Array(items) => all_printable(items),
        SpecExpr::ArrayElement(var, index, indexes) => is_name(var) && printable(*index)
            && all_printable(indexes),
        SpecExpr::BinExp(l, op, r) => printable(*l) && printable(*r),
        SpecExpr::Call(name, args) => is_name(name) && name != "length"@ && name != "letters"@
            && name != "readline"@ && all_printable(args),
        SpecExpr::Length(e) => printable(*e),
        SpecExpr::Letters(e) => printable(*e),
        SpecExpr::Not(e) => printable(*e),
        SpecExpr::Range(a, b) => printable(*a) && printable(*b),
        SpecExpr::ReadLine => true,
        SpecExpr::Step(a, b, s) => printable(*a) && printable(*b) && printable(*s),
        SpecExpr::Value(v) => match v {
            SpecValue::Array(_) => false,
            SpecValue::Str(text) => quotable(text),
            _ => true,
        },
        SpecExpr::Var(name) => is_name(name),
    }
}

/// Whether each of the expressions is printable.
pub open spec fn all_printable(items: Seq<SpecExpr>) -> bool
    decreases items,
{
    if items.len() == 0 {
        true
    } else {
        all_printable(items.drop_last()) && printable(items.last())
    }
}

/// The tokens of an operand: those of the expression, in parentheses where
/// `wrap` says so.
pub open spec fn wrapped(tokens: Seq<SpecToken>, wrap: bool) -> Seq<SpecToken> {
    if wrap {
        seq![SpecToken::LeftParen] + tokens + seq![SpecToken::RightParen]
    } else {
        tokens
    }
}

/// The tokens of the text of an expression.
pub open spec fn expr_tokens(e: SpecExpr) -> Seq<SpecToken>
    decreases e,
{
    match e {
        SpecExpr::Array(items) => seq![SpecToken::LeftBracket] + list_tokens(items)
            + seq![SpecToken::RightBracket],
        SpecExpr::ArrayElement(var, index, indexes) => seq![
            SpecToken::Ident(var),
            SpecToken::LeftBracket,
        ] + expr_tokens(*index) + seq![SpecToken::RightBracket] + index_tokens(indexes),
        SpecExpr::BinExp(l, op, r) => {
            let level = op.spec_precedence().spec_level();
            wrapped(expr_tokens(*l), level_of(*l) < level) + seq![op_token(op)] + wrapped(
                expr_tokens(*r),
                level_of(*r) <= level,
            )
        },
        SpecExpr::Call(name, args) => seq![SpecToken::Ident(name), SpecToken::LeftParen]
            + list_tokens(args) + seq![SpecToken::RightParen],
        SpecExpr::Length(e) => seq![SpecToken::Ident("length"@), SpecToken::LeftParen]
            + expr_tokens(*e) + seq![SpecToken::RightParen],
        SpecExpr::Letters(e) => seq![SpecToken::Ident("letters"@), SpecToken::LeftParen]
            + expr_tokens(*e) + seq![SpecToken::RightParen],
        SpecExpr::Not(e) => seq![SpecToken::Bang] + wrapped(expr_tokens(*e), level_of(*e) < 6),
        SpecExpr::Range(a, b) => seq![SpecToken::Range, SpecToken::LeftParen] + expr_tokens(*a)
            + seq![SpecToken::Comma] + expr_tokens(*b) + seq![SpecToken::RightParen],
        SpecExpr::ReadLine => seq![
            SpecToken::Ident("readline"@),
            SpecToken::LeftParen,
            SpecToken::RightParen,
        ],
        SpecExpr::Step(a, b, s) => seq![SpecToken::Step, SpecToken::LeftParen] + expr_tokens(*a)
            + seq![SpecToken::Comma] + expr_tokens(*b) + seq![SpecToken::Comma] + expr_tokens(*s)
            + seq![SpecToken::RightParen],
        SpecExpr::Value(v) => match v {
            SpecValue::Int(i) => seq![SpecToken::I64(int_text(i as int))],
            SpecValue::Bool(b) => seq![
                if b {
                    SpecToken::True
                } else {
                    SpecToken::False
                },
            ],
            SpecValue::Str(text) => seq![SpecToken::StringLiteral(text)],
            SpecValue::Array(_) => Seq::empty(),
        },
        SpecExpr::Var(name) => seq![SpecToken::Ident(name)],
    }
}

/// The tokens of the expressions, with a comma between them.
pub open spec fn list_tokens(items: Seq<SpecExpr>) -> Seq<SpecToken>
    decreases items,
{
    if items.len() == 0 {
        Seq::empty()
    } else if items.len() == 1 {
        expr_tokens(items.last())
    } else {
        list_tokens(items.drop_last()) + seq![SpecToken::Comma] + expr_tokens(items.last())
    }
}

/// The tokens of the expressions, each in brackets of its own.
pub open spec fn index_tokens(items: Seq<SpecExpr>) -> Seq<SpecToken>
    decreases items,
{
    if items.len() == 0 {
        Seq::empty()
    } else {
        index_tokens(items.drop_last()) + seq![SpecToken::LeftBracket] + expr_tokens(items.last())
            + seq![SpecToken::RightBracket]
    }
}

/// Whether the tokens `tokens` stand at the place `i` of `ts`.
pub open spec fn tokens_at(ts: Seq<SpecSpanned>, i: int, tokens: Seq<SpecToken>) -> bool {
    &&& 0 <= i
    &&& i + tokens.len() <= ts.len()
    &&& forall|k: int| 0 <= k < tokens.len() ==> (#[trigger] ts[i + k]).1 == tokens[k]
}

/// Whether the token at the place `j`, if there is one, opens neither
/// the arguments of a call nor an index.
pub open spec fn no_opener(ts: Seq<SpecSpanned>, j: int) -> bool {
    !token_is(ts, j, SpecToken::LeftParen) && !token_is(ts, j, SpecToken::LeftBracket)
}

/// Whether the token at the place `j`, if there is one, is no binary
/// operator of the given level or of a tighter one.
pub open spec fn no_operator(ts: Seq<SpecSpanned>, j: int, level: nat) -> bool {
    0 <= j < ts.len() ==> forall|l: nat| level <= l < 6 ==> binary_op(ts[j].1, l) is None
}

/// The token of an operator stands for that operator at its own level and
/// for none at another.
pub proof fn lemma_op_token(op: BinOp, level: nat)
    ensures
        binary_op(op_token(op), level) == if level == op.spec_precedence().spec_level() {
            Some(op)
        } else {
            None
        },
        op.spec_precedence().spec_level() < 6,
{
}

/// The token at a place among tokens that stand somewhere.
pub proof fn lemma_token_at(ts: Seq<SpecSpanned>, i: int, tokens: Seq<SpecToken>, k: int)
    requires
        tokens_at(ts, i, tokens),
        0 <= k < tokens.len(),
    ensures
        token_is(ts, i + k, tokens[k]),
{
    assert(ts[i + k].1 == tokens[k]);
}

/// What stands where a part of the tokens stands: the tokens `a + b` stand
/// at a place just if `a` stands there and `b` behind it.
pub proof fn lemma_tokens_split(ts: Seq<SpecSpanned>, i: int, a: Seq<SpecToken>, b: Seq<SpecToken>)
    requires
        0 <= i,
    ensures
        tokens_at(ts, i, a + b) <==> tokens_at(ts, i, a) && tokens_at(ts, i + a.len(), b),
{
    if tokens_at(ts, i, a + b) {
        assert forall|k: int| 0 <= k < a.len() implies (#[trigger] ts[i + k]).1 == a[k] by {
            assert((a + b)[k] == a[k]);
        }
        assert forall|k: int| 0 <= k < b.len() implies (#[trigger] ts[i + a.len() + k]).1
            == b[k] by {
            assert((a + b)[a.len() + k] == b[k]);
            assert(ts[i + (a.len() + k)].1 == (a + b)[a.len() + k]);
        }
    }
    if tokens_at(ts, i, a) && tokens_at(ts, i + a.len(), b) {
        assert forall|k: int| 0 <= k < (a + b).len() implies (#[trigger] ts[i + k]).1 == (a
            + b)[k] by {
            if k >= a.len() {
                assert(ts[i + a.len() + (k - a.len())].1 == b[k - a.len()]);
            }
        }
    }
}

/// The tokens of a printable expression are not none, and the first of them
/// closes nothing and separates nothing.
pub proof fn lemma_first_token(e: SpecExpr)
    requires
        printable(e),
    ensures
        expr_tokens(e).len() > 0,
        expr_tokens(e)[0] != SpecToken::RightParen,
        expr_tokens(e)[0] != SpecToken::RightBracket,
        expr_tokens(e)[0] != SpecToken::Comma,
    decreases e,
{
    match e {
        SpecExpr::BinExp(l, op, r) => {
            lemma_first_token(*l);
        },
        _ => {},
    }
}

/// Each of the expressions of a printable list is printable.
pub proof fn lemma_all_printable(items: Seq<SpecExpr>, k: int)
    requires
        all_printable(items),
        0 <= k < items.len(),
    ensures
        printable(items[k]),
    decreases items.len(),
{
    if k < items.len() - 1 {
        lemma_all_printable(items.drop_last(), k);
    }
}

/// Where the tokens of a list stand, the tokens of its first `k` items
/// stand, for each `k`; behind them stands a comma, and behind the comma the
/// tokens of the next item.
pub proof fn lemma_list_parts(items: Seq<SpecExpr>, ts: Seq<SpecSpanned>, i: int, k: int)
    requires
        tokens_at(ts, i, list_tokens(items)),
        1 <= k <= items.len(),
    ensures
        tokens_at(ts, i, list_tokens(items.take(k))),
        k < items.len() ==> ({
            let a = list_tokens(items.take(k)).len();
            &&& token_is(ts, i + a, SpecToken::Comma)
            &&& tokens_at(ts, i + a + 1, expr_tokens(items[k]))
            &&& list_tokens(items.take(k + 1)).len() == a + 1 + expr_tokens(items[k]).len()
        }),
    decreases items.len() - k,
{
    if k == items.len() {
        assert(items.take(k) =~= items);
    } else {
        lemma_list_parts(items, ts, i, k + 1);
        let longer = items.take(k + 1);
        assert(longer.drop_last() =~= items.take(k));
        assert(longer.last() == items[k]);
        let a = list_tokens(items.take(k));
        lemma_tokens_split(ts, i, a + seq![SpecToken::Comma], expr_tokens(items[k]));
        lemma_tokens_split(ts, i, a, seq![SpecToken::Comma]);
        assert(ts[i + a.len() + 0].1 == seq![SpecToken::Comma][0]);
    }
}

/// Where the tokens of a chain of indexes stand, the tokens of its first
/// `k` indexes stand, for each `k`; behind them stands a bracket, the tokens
/// of the next index, and the closing bracket.
pub proof fn lemma_index_parts(items: Seq<SpecExpr>, ts: Seq<SpecSpanned>, i: int, k: int)
    requires
        tokens_at(ts, i, index_tokens(items)),
        0 <= k <= items.len(),
    ensures
        tokens_at(ts, i, index_tokens(items.take(k))),
        k < items.len() ==> ({
            let a = index_tokens(items.take(k)).len();
            let n = expr_tokens(items[k]).len();
            &&& token_is(ts, i + a, SpecToken::LeftBracket)
            &&& tokens_at(ts, i + a + 1, expr_tokens(items[k]))
            &&& token_is(ts, i + a + 1 + n, SpecToken::RightBracket)
            &&& index_tokens(items.take(k + 1)).len() == a + n + 2
        }),
    decreases items.len() - k,
{
    if k == items.len() {
        assert(items.take(k) =~= items);
    } else {
        lemma_index_parts(items, ts, i, k + 1);
        let longer = items.take(k + 1);
        assert(longer.drop_last() =~= items.take(k));
        assert(longer.last() == items[k]);
        let a = index_tokens(items.take(k));
        let open = seq![SpecToken::LeftBracket];
        let close = seq![SpecToken::RightBracket];
        let mid = expr_tokens(items[k]);
        lemma_tokens_split(ts, i, a + open + mid, close);
        lemma_tokens_split(ts, i, a + open, mid);
        lemma_tokens_split(ts, i, a, open);
        assert(ts[i + a.len() + 0].1 == open[0]);
        assert(ts[i + (a + open + mid).len() + 0].1 == close[0]);
    }
}

/// A list begins with its first expression.
pub proof fn lemma_list_start(ts: Seq<SpecSpanned>, i: int, close: SpecToken, x: SpecExpr, j: int)
    requires
        !token_is(ts, i, close),
        parse_expr(ts, i) == Ok::<(SpecExpr, int), SpecParseError>((x, j)),
        i <= j,
    ensures
        parse_list(ts, i, close) == parse_list_rest(ts, j, close, seq![x]),
{
}

/// A list goes on with a comma and an expression.
pub proof fn lemma_list_more(
    ts: Seq<SpecSpanned>,
    i: int,
    close: SpecToken,
    done: Seq<SpecExpr>,
    x: SpecExpr,
    j: int,
)
    requires
        token_is(ts, i, SpecToken::Comma),
        parse_expr(ts, i + 1) == Ok::<(SpecExpr, int), SpecParseError>((x, j)),
        i < j,
    ensures
        parse_list_rest(ts, i, close, done) == parse_list_rest(ts, j, close, done.push(x)),
{
}

/// A list ends with the token that closes it.
pub proof fn lemma_list_end(ts: Seq<SpecSpanned>, i: int, close: SpecToken, done: Seq<SpecExpr>)
    requires
        token_is(ts, i, close),
        close != SpecToken::Comma,
    ensures
        parse_list_rest(ts, i, close, done) == Ok::<(Seq<SpecExpr>, int), SpecParseError>(
            (done, i + 1),
        ),
{
}

/// The parser reads an expression that is no binary expression from its
/// tokens, as a negation or an atom.
#[verifier::rlimit(20)]
pub proof fn lemma_parse_atom(e: SpecExpr, ts: Seq<SpecSpanned>, i: int)
    requires
        printable(e),
        !(e is BinExp),
        tokens_at(ts, i, expr_tokens(e)),
        no_opener(ts, i + expr_tokens(e).len()),
    ensures
        parse_unary(ts, i) == Ok::<(SpecExpr, int), SpecParseError>(
            (e, i + expr_tokens(e).len()),
        ),
    decreases e, 2nat, 0nat,
{
    let j = i + expr_tokens(e).len();
    match e {
        SpecExpr::Array(items) => {
            lemma_parse_array(e, ts, i);
        },
        SpecExpr::ArrayElement(var, index, indexes) => {
            lemma_parse_array_element(e, ts, i);
        },
        SpecExpr::Call(name, args) => {
            lemma_parse_call(e, ts, i);
        },
        SpecExpr::Length(x) => {
            reveal_strlit("length");
            lemma_parse_arguments(e, "length"@, seq![*x], ts, i);
            assert(parse_atom(ts, i) == Ok::<(SpecExpr, int), SpecParseError>((e, j)));
        },
        SpecExpr::Letters(x) => {
            reveal_strlit("length");
            reveal_strlit("letters");
            assert("letters"@.len() != "length"@.len());
            lemma_parse_arguments(e, "letters"@, seq![*x], ts, i);
            assert(parse_atom(ts, i) == Ok::<(SpecExpr, int), SpecParseError>((e, j)));
        },
        SpecExpr::Not(x) => {
            lemma_parse_negation(e, ts, i);
        },
        SpecExpr::Range(a, b) => {
            lemma_parse_range(e, ts, i);
            assert(parse_atom(ts, i) == Ok::<(SpecExpr, int), SpecParseError>((e, j)));
        },
        SpecExpr::ReadLine => {
            reveal_strlit("length");
            reveal_strlit("letters");
            reveal_strlit("readline");
            assert("readline"@.len() != "length"@.len());
            assert("readline"@.len() != "letters"@.len());
            lemma_token_at(ts, i, expr_tokens(e), 0);
            lemma_token_at(ts, i, expr_tokens(e), 1);
            lemma_token_at(ts, i, expr_tokens(e), 2);
            assert(parse_list(ts, i + 2, SpecToken::RightParen) == Ok::<
                (Seq<SpecExpr>, int),
                SpecParseError,
            >((Seq::empty(), i + 3)));
            assert(parse_atom(ts, i) == Ok::<(SpecExpr, int), SpecParseError>((e, j)));
        },
        SpecExpr::Step(a, b, s) => {
            lemma_parse_step(e, ts, i);
            assert(parse_atom(ts, i) == Ok::<(SpecExpr, int), SpecParseError>((e, j)));
        },
        SpecExpr::Value(v) => {
            lemma_token_at(ts, i, expr_tokens(e), 0);
            match v {
                SpecValue::Int(n) => {
                    lemma_int_text_round_trip(n);
                },
                _ => {},
            }
            assert(parse_atom(ts, i) == Ok::<(SpecExpr, int), SpecParseError>((e, j)));
        },
        SpecExpr::Var(name) => {
            lemma_token_at(ts, i, expr_tokens(e), 0);
            assert(parse_atom(ts, i) == Ok::<(SpecExpr, int), SpecParseError>((e, j)));
        },
        SpecExpr::BinExp(_, _, _) => {},
    }
}

/// The parser reads an array from its tokens.
pub proof fn lemma_parse_array(e: SpecExpr, ts: Seq<SpecSpanned>, i: int)
    requires
        printable(e),
        e is Array,
        tokens_at(ts, i, expr_tokens(e)),
    ensures
        parse_atom(ts, i) == Ok::<(SpecExpr, int), SpecParseError>((e, i + expr_tokens(e).len())),
        !token_is(ts, i, SpecToken::Bang),
    decreases e, 1nat, 0nat,
{
    match e {
        SpecExpr::Array(items) => {
            let open = seq![SpecToken::LeftBracket];
            let close = seq![SpecToken::RightBracket];
            lemma_tokens_split(ts, i, open + list_tokens(items), close);
            lemma_tokens_split(ts, i, open, list_tokens(items));
            lemma_tokens_split(ts, i + 1, list_tokens(items), close);
            lemma_token_at(ts, i, open, 0);
            lemma_parse_list(items, ts, i + 1, SpecToken::RightBracket);
        },
        _ => {},
    }
}

/// The parser reads a call from its tokens.
pub proof fn lemma_parse_call(e: SpecExpr, ts: Seq<SpecSpanned>, i: int)
    requires
        printable(e),
        e is Call,
        tokens_at(ts, i, expr_tokens(e)),
    ensures
        parse_atom(ts, i) == Ok::<(SpecExpr, int), SpecParseError>((e, i + expr_tokens(e).len())),
        !token_is(ts, i, SpecToken::Bang),
    decreases e, 1nat, 0nat,
{
    match e {
        SpecExpr::Call(name, args) => {
            let head = seq![SpecToken::Ident(name), SpecToken::LeftParen];
            let close = seq![SpecToken::RightParen];
            lemma_tokens_split(ts, i, head + list_tokens(args), close);
            lemma_tokens_split(ts, i, head, list_tokens(args));
            lemma_tokens_split(ts, i + 2, list_tokens(args), close);
            lemma_token_at(ts, i, head, 0);
            lemma_token_at(ts, i, head, 1);
            lemma_parse_list(args, ts, i + 2, SpecToken::RightParen);
        },
        _ => {},
    }
}

/// The parser reads a negation from its tokens.
pub proof fn lemma_parse_negation(e: SpecExpr, ts: Seq<SpecSpanned>, i: int)
    requires
        printable(e),
        e is Not,
        tokens_at(ts, i, expr_tokens(e)),
        no_opener(ts, i + expr_tokens(e).len()),
    ensures
        parse_unary(ts, i) == Ok::<(SpecExpr, int), SpecParseError>(
            (e, i + expr_tokens(e).len()),
        ),
    decreases e, 1nat, 0nat,
{
    match e {
        SpecExpr::Not(x) => {
            let wrap = level_of(*x) < 6;
            let operand = wrapped(expr_tokens(*x), wrap);
            lemma_tokens_split(ts, i, seq![SpecToken::Bang], operand);
            lemma_token_at(ts, i, seq![SpecToken::Bang], 0);
            if wrap {
                lemma_parse_operand(*x, true, ts, i + 1, 6);
            } else {
                lemma_parse_atom(*x, ts, i + 1);
            }
            assert(parse_unary(ts, i + 1) == Ok::<(SpecExpr, int), SpecParseError>(
                (*x, i + 1 + operand.len()),
            ));
        },
        _ => {},
    }
}

/// The parser reads the indexing of a variable from its tokens.
pub proof fn lemma_parse_array_element(e: SpecExpr, ts: Seq<SpecSpanned>, i: int)
    requires
        printable(e),
        e is ArrayElement,
        tokens_at(ts, i, expr_tokens(e)),
        no_opener(ts, i + expr_tokens(e).len()),
    ensures
        parse_atom(ts, i) == Ok::<(SpecExpr, int), SpecParseError>((e, i + expr_tokens(e).len())),
        !token_is(ts, i, SpecToken::Bang),
    decreases e, 1nat, 0nat,
{
    match e {
        SpecExpr::ArrayElement(var, index, indexes) => {
            let head = seq![SpecToken::Ident(var), SpecToken::LeftBracket];
            let close = seq![SpecToken::RightBracket];
            let first = expr_tokens(*index);
            let rest = index_tokens(indexes);
            lemma_tokens_split(ts, i, head + first + close, rest);
            lemma_tokens_split(ts, i, head + first, close);
            lemma_tokens_split(ts, i, head, first);
            assert(ts[i + 0].1 == head[0]);
            assert(ts[i + 1].1 == head[1]);
            let q = i + (head + first).len();
            assert(ts[q + 0].1 == close[0]);
            lemma_parse_full(*index, ts, i + 2);
            let start = i + (head + first + close).len();
            assert(indexes.take(0) =~= Seq::<SpecExpr>::empty());
            assert(seq![*index] + indexes.take(0) =~= seq![*index]);
            assert(Seq::<SpecExpr>::empty().push(*index) =~= seq![*index]);
            lemma_parse_indexes(indexes, 0, seq![*index], ts, start);
            let all = seq![*index] + indexes;
            assert(all[0] == *index);
            assert(all.drop_first() =~= indexes);
            assert(parse_indexes(ts, i + 1, Seq::empty()) == Ok::<
                (Seq<SpecExpr>, int),
                SpecParseError,
            >((all, i + expr_tokens(e).len())));
        },
        _ => {},
    }
}

/// The parser reads the arguments of `length` and `letters` from the
/// tokens of the name and of the argument in parentheses.
pub proof fn lemma_parse_arguments(
    e: SpecExpr,
    name: Seq<char>,
    args: Seq<SpecExpr>,
    ts: Seq<SpecSpanned>,
    i: int,
)
    requires
        printable(e),
        match e {
            SpecExpr::Length(x) => args == seq![*x],
            SpecExpr::Letters(x) => args == seq![*x],
            _ => false,
        },
        tokens_at(
            ts,
            i,
            seq![SpecToken::Ident(name), SpecToken::LeftParen] + expr_tokens(args[0])
                + seq![SpecToken::RightParen],
        ),
    ensures
        token_is(ts, i, SpecToken::Ident(name)),
        token_is(ts, i + 1, SpecToken::LeftParen),
        parse_list(ts, i + 2, SpecToken::RightParen) == Ok::<(Seq<SpecExpr>, int), SpecParseError>(
            (args, i + expr_tokens(args[0]).len() + 3),
        ),
    decreases e, 1nat, 0nat,
{
    let x = args[0];
    let head = seq![SpecToken::Ident(name), SpecToken::LeftParen];
    let close = seq![SpecToken::RightParen];
    let inner = expr_tokens(x);
    lemma_tokens_split(ts, i, head + inner, close);
    lemma_tokens_split(ts, i, head, inner);
    assert(ts[i + 0].1 == head[0]);
    assert(ts[i + 1].1 == head[1]);
    let q = i + (head + inner).len();
    assert(ts[q + 0].1 == close[0]);
    lemma_first_token(x);
    assert(ts[i + 2 + 0].1 == inner[0]);
    lemma_parse_full(x, ts, i + 2);
    lemma_list_start(ts, i + 2, SpecToken::RightParen, x, q);
    lemma_list_end(ts, q, SpecToken::RightParen, seq![x]);
    assert(args =~= seq![x]);
}

/// The parser reads the arguments of `range` from the tokens of the
/// keyword and of the arguments in parentheses, with a comma between them.
pub proof fn lemma_parse_range(e: SpecExpr, ts: Seq<SpecSpanned>, i: int)
    requires
        printable(e),
        e is Range,
        tokens_at(ts, i, expr_tokens(e)),
    ensures
        token_is(ts, i, SpecToken::Range),
        token_is(ts, i + 1, SpecToken::LeftParen),
        parse_list(ts, i + 2, SpecToken::RightParen) == Ok::<(Seq<SpecExpr>, int), SpecParseError>(
            (seq![*e->Range_0, *e->Range_1], i + expr_tokens(e).len()),
        ),
    decreases e, 1nat, 0nat,
{
    let a = *e->Range_0;
    let b = *e->Range_1;
    let head = seq![SpecToken::Range, SpecToken::LeftParen];
    let comma = seq![SpecToken::Comma];
    let close = seq![SpecToken::RightParen];
    let ta = expr_tokens(a);
    let tb = expr_tokens(b);
    let paren = SpecToken::RightParen;
    let at1 = i + (head + ta).len();
    let at2 = i + (head + ta + comma + tb).len();
    lemma_first_token(a);
    lemma_tokens_split(ts, i, head + ta + comma + tb, close);
    lemma_tokens_split(ts, i, head + ta + comma, tb);
    lemma_tokens_split(ts, i, head + ta, comma);
    lemma_tokens_split(ts, i, head, ta);
    lemma_token_at(ts, i, head, 0);
    lemma_token_at(ts, i, head, 1);
    lemma_token_at(ts, i + 2, ta, 0);
    lemma_token_at(ts, at1, comma, 0);
    lemma_token_at(ts, at2, close, 0);
    lemma_parse_full(a, ts, i + 2);
    lemma_parse_full(b, ts, at1 + 1);
    lemma_list_start(ts, i + 2, paren, a, at1);
    lemma_list_more(ts, at1, paren, seq![a], b, at2);
    assert(seq![a].push(b) =~= seq![a, b]);
    lemma_list_end(ts, at2, paren, seq![a, b]);
}

/// Where the tokens of `step(a, b, s)` stand, the keyword, the
/// parentheses, the commas and the tokens of each argument stand in turn.
pub proof fn lemma_step_layout(e: SpecExpr, ts: Seq<SpecSpanned>, i: int)
    requires
        e is Step,
        tokens_at(ts, i, expr_tokens(e)),
    ensures
        ({
            let na = expr_tokens(*e->Step_0).len();
            let nb = expr_tokens(*e->Step_1).len();
            let nc = expr_tokens(*e->Step_2).len();
            &&& expr_tokens(e).len() == na + nb + nc + 5
            &&& token_is(ts, i, SpecToken::Step)
            &&& token_is(ts, i + 1, SpecToken::LeftParen)
            &&& tokens_at(ts, i + 2, expr_tokens(*e->Step_0))
            &&& token_is(ts, i + 2 + na, SpecToken::Comma)
            &&& tokens_at(ts, i + 3 + na, expr_tokens(*e->Step_1))
            &&& token_is(ts, i + 3 + na + nb, SpecToken::Comma)
            &&& tokens_at(ts, i + 4 + na + nb, expr_tokens(*e->Step_2))
            &&& token_is(ts, i + 4 + na + nb + nc, SpecToken::RightParen)
        }),
{
    let head = seq![SpecToken::Step, SpecToken::LeftParen];
    let comma = seq![SpecToken::Comma];
    let close = seq![SpecToken::RightParen];
    let ta = expr_tokens(*e->Step_0);
    let tb = expr_tokens(*e->Step_1);
    let tc = expr_tokens(*e->Step_2);
    lemma_tokens_split(ts, i, head + ta + comma + tb + comma + tc, close);
    lemma_tokens_split(ts, i, head + ta + comma + tb + comma, tc);
    lemma_tokens_split(ts, i, head + ta + comma + tb, comma);
    lemma_tokens_split(ts, i, head + ta + comma, tb);
    lemma_tokens_split(ts, i, head + ta, comma);
    lemma_tokens_split(ts, i, head, ta);
    lemma_token_at(ts, i, head, 0);
    lemma_token_at(ts, i, head, 1);
    lemma_token_at(ts, i + (head + ta).len(), comma, 0);
    lemma_token_at(ts, i + (head + ta + comma + tb).len(), comma, 0);
    lemma_token_at(ts, i + (head + ta + comma + tb + comma + tc).len(), close, 0);
}

/// The parser reads the arguments of `step` from the tokens of the
/// keyword and of the arguments in parentheses, with commas between them.
#[verifier::rlimit(20)]
pub proof fn lemma_parse_step(e: SpecExpr, ts: Seq<SpecSpanned>, i: int)
    requires
        printable(e),
        e is Step,
        tokens_at(ts, i, expr_tokens(e)),
    ensures
        token_is(ts, i, SpecToken::Step),
        token_is(ts, i + 1, SpecToken::LeftParen),
        parse_list(ts, i + 2, SpecToken::RightParen) == Ok::<(Seq<SpecExpr>, int), SpecParseError>(
            (seq![*e->Step_0, *e->Step_1, *e->Step_2], i + expr_tokens(e).len()),
        ),
    decreases e, 1nat, 0nat,
{
    let a = *e->Step_0;
    let b = *e->Step_1;
    let c = *e->Step_2;
    let paren = SpecToken::RightParen;
    let at1 = i + 2 + expr_tokens(a).len();
    let at2 = at1 + 1 + expr_tokens(b).len();
    let at3 = at2 + 1 + expr_tokens(c).len();
    lemma_step_layout(e, ts, i);
    lemma_first_token(a);
    lemma_token_at(ts, i + 2, expr_tokens(a), 0);
    lemma_parse_full(a, ts, i + 2);
    lemma_parse_full(b, ts, at1 + 1);
    lemma_parse_full(c, ts, at2 + 1);
    lemma_list_start(ts, i + 2, paren, a, at1);
    lemma_list_more(ts, at1, paren, seq![a], b, at2);
    lemma_list_more(ts, at2, paren, seq![a].push(b), c, at3);
    assert(seq![a].push(b).push(c) =~= seq![a, b, c]);
    lemma_list_end(ts, at3, paren, seq![a, b, c]);
}

/// The parser reads a list of expressions from their tokens, with commas
/// between them, and the token that closes the list.
pub proof fn lemma_parse_list(items: Seq<SpecExpr>, ts: Seq<SpecSpanned>, i: int, close: SpecToken)
    requires
        all_printable(items),
        close == SpecToken::RightParen || close == SpecToken::RightBracket,
        tokens_at(ts, i, list_tokens(items) + seq![close]),
    ensures
        parse_list(ts, i, close) == Ok::<(Seq<SpecExpr>, int), SpecParseError>(
            (items, i + list_tokens(items).len() + 1),
        ),
    decreases items, 2nat, 0nat,
{
    lemma_tokens_split(ts, i, list_tokens(items), seq![close]);
    lemma_token_at(ts, i + list_tokens(items).len(), seq![close], 0);
    if items.len() == 0 {
        assert(items =~= Seq::<SpecExpr>::empty());
    } else {
        lemma_list_parts(items, ts, i, 1);
        let first = items[0];
        assert(items.take(1) =~= seq![first]);
        assert(items.take(1).drop_last() =~= Seq::<SpecExpr>::empty());
        lemma_all_printable(items, 0);
        lemma_first_token(first);
        lemma_token_at(ts, i, expr_tokens(first), 0);
        let j = i + expr_tokens(first).len();
        // What follows the first item is a comma or the closing token.
        if items.len() == 1 {
            assert(items =~= seq![first]);
        }
        lemma_parse_full(first, ts, i);
        lemma_list_start(ts, i, close, first, j);
        lemma_parse_list_rest(items, 1, ts, i, close);
    }
}

/// The parser reads the rest of a list, of which the first `k` items are
/// read, from the tokens behind them.
pub proof fn lemma_parse_list_rest(
    items: Seq<SpecExpr>,
    k: int,
    ts: Seq<SpecSpanned>,
    i: int,
    close: SpecToken,
)
    requires
        all_printable(items),
        close == SpecToken::RightParen || close == SpecToken::RightBracket,
        tokens_at(ts, i, list_tokens(items)),
        tokens_at(ts, i + list_tokens(items).len(), seq![close]),
        1 <= k <= items.len(),
    ensures
        parse_list_rest(ts, i + list_tokens(items.take(k)).len(), close, items.take(k)) == Ok::<
            (Seq<SpecExpr>, int),
            SpecParseError,
        >((items, i + list_tokens(items).len() + 1)),
    decreases items, 1nat, items.len() - k,
{
    lemma_list_parts(items, ts, i, k);
    let a = list_tokens(items.take(k)).len();
    if k == items.len() {
        assert(items.take(k) =~= items);
        lemma_token_at(ts, i + list_tokens(items).len(), seq![close], 0);
        lemma_list_end(ts, i + a, close, items);
    } else {
        let next = items[k];
        lemma_all_printable(items, k);
        let j = i + a + 1 + expr_tokens(next).len();
        // What follows the item is a comma or the closing token.
        if k + 1 == items.len() {
            assert(items.take(k + 1) =~= items);
            lemma_token_at(ts, i + list_tokens(items).len(), seq![close], 0);
        } else {
            lemma_list_parts(items, ts, i, k + 1);
        }
        lemma_parse_full(next, ts, i + a + 1);
        lemma_list_more(ts, i + a, close, items.take(k), next, j);
        lemma_parse_list_rest(items, k + 1, ts, i, close);
        assert(items.take(k).push(next) =~= items.take(k + 1));
    }
}

/// The parser reads the rest of a chain of indexes, of which the first `k`
/// are read behind those that are `done`, from the tokens behind them.
pub proof fn lemma_parse_indexes(
    items: Seq<SpecExpr>,
    k: int,
    done: Seq<SpecExpr>,
    ts: Seq<SpecSpanned>,
    i: int,
)
    requires
        all_printable(items),
        tokens_at(ts, i, index_tokens(items)),
        !token_is(ts, i + index_tokens(items).len(), SpecToken::LeftBracket),
        0 <= k <= items.len(),
    ensures
        parse_indexes(ts, i + index_tokens(items.take(k)).len(), done + items.take(k)) == Ok::<
            (Seq<SpecExpr>, int),
            SpecParseError,
        >((done + items, i + index_tokens(items).len())),
    decreases items, 1nat, items.len() - k,
{
    lemma_index_parts(items, ts, i, k);
    let a = index_tokens(items.take(k)).len();
    if k == items.len() {
        assert(items.take(k) =~= items);
    } else {
        let next = items[k];
        lemma_all_printable(items, k);
        lemma_parse_full(next, ts, i + a + 1);
        lemma_parse_indexes(items, k + 1, done, ts, i);
        assert((done + items.take(k)).push(next) =~= done + items.take(k + 1));
    }
}

/// The parser reads a whole expression from its tokens, where no operator
/// and no opening parenthesis or bracket follows.
pub proof fn lemma_parse_full(e: SpecExpr, ts: Seq<SpecSpanned>, i: int)
    requires
        printable(e),
        tokens_at(ts, i, expr_tokens(e)),
        no_opener(ts, i + expr_tokens(e).len()),
        no_operator(ts, i + expr_tokens(e).len(), 0),
    ensures
        parse_expr(ts, i) == Ok::<(SpecExpr, int), SpecParseError>((e, i + expr_tokens(e).len())),
    decreases e, 6nat, 0nat,
{
    lemma_parse_operand(e, false, ts, i, 0);
}

/// The parser reads an operand from its tokens: at the level `level`, an
/// expression in parentheses, or one that binds at least as tightly as the
/// level, where no operator of the level or of a tighter one follows.
pub proof fn lemma_parse_operand(x: SpecExpr, wrap: bool, ts: Seq<SpecSpanned>, i: int, level: nat)
    requires
        printable(x),
        level <= 6,
        wrap || level <= level_of(x),
        tokens_at(ts, i, wrapped(expr_tokens(x), wrap)),
        no_opener(ts, i + wrapped(expr_tokens(x), wrap).len()),
        no_operator(ts, i + wrapped(expr_tokens(x), wrap).len(), level),
    ensures
        parse_level(ts, i, level) == Ok::<(SpecExpr, int), SpecParseError>(
            (x, i + wrapped(expr_tokens(x), wrap).len()),
        ),
    decreases x, (if wrap { 7nat } else { 4nat }), 6 - level,
{
    let j = i + wrapped(expr_tokens(x), wrap).len();
    if !wrap {
        lemma_parse_level(x, ts, i, level);
        if level < 6 && 0 <= j < ts.len() {
            assert(binary_op(ts[j].1, level) is None);
        }
        assert(parse_level_rest(ts, j, level, x) == Ok::<(SpecExpr, int), SpecParseError>((x, j)));
    } else {
        let open = seq![SpecToken::LeftParen];
        let close = seq![SpecToken::RightParen];
        lemma_tokens_split(ts, i, open + expr_tokens(x), close);
        lemma_tokens_split(ts, i, open, expr_tokens(x));
        assert(ts[i + 0].1 == open[0]);
        let q = i + (open + expr_tokens(x)).len();
        assert(ts[q + 0].1 == close[0]);
        if level >= 6 {
            lemma_parse_full(x, ts, i + 1);
            assert(parse_expr(ts, i + 1) == Ok::<(SpecExpr, int), SpecParseError>((x, q)));
            assert(parse_atom(ts, i) == Ok::<(SpecExpr, int), SpecParseError>((x, j)));
            assert(parse_unary(ts, i) == parse_atom(ts, i));
        } else {
            lemma_parse_operand(x, true, ts, i, level + 1);
            if 0 <= j < ts.len() {
                assert(binary_op(ts[j].1, level) is None);
            }
            assert(parse_level_rest(ts, j, level, x) == Ok::<(SpecExpr, int), SpecParseError>(
                (x, j),
            ));
        }
    }
}

/// At each level up to its own, the parser reads an expression from its
/// tokens and goes on behind them with the operators of that level, where
/// no tighter operator follows.
pub proof fn lemma_parse_level(e: SpecExpr, ts: Seq<SpecSpanned>, i: int, level: nat)
    requires
        printable(e),
        level <= level_of(e),
        tokens_at(ts, i, expr_tokens(e)),
        no_opener(ts, i + expr_tokens(e).len()),
        no_operator(ts, i + expr_tokens(e).len(), level + 1),
    ensures
        parse_level(ts, i, level) == parse_level_rest(ts, i + expr_tokens(e).len(), level, e),
    decreases e, 3nat, 6 - level,
{
    let j = i + expr_tokens(e).len();
    if level >= 6 {
        lemma_parse_atom(e, ts, i);
    } else if level < level_of(e) {
        lemma_parse_level(e, ts, i, level + 1);
        if level + 1 < 6 && 0 <= j < ts.len() {
            assert(binary_op(ts[j].1, level + 1) is None);
        }
    } else {
        match e {
            SpecExpr::BinExp(l, op, r) => {
                lemma_op_token(op, level);
                lemma_op_token(op, level + 1);
                let wrap_l = level_of(*l) < level;
                let wrap_r = level_of(*r) <= level;
                let left = wrapped(expr_tokens(*l), wrap_l);
                let right = wrapped(expr_tokens(*r), wrap_r);
                let p = i + left.len();
                lemma_tokens_split(ts, i, left + seq![op_token(op)], right);
                lemma_tokens_split(ts, i, left, seq![op_token(op)]);
                assert(ts[p + 0].1 == seq![op_token(op)][0]);
                assert forall|l2: nat| level + 1 <= l2 < 6 implies binary_op(ts[p].1, l2)
                    is None by {
                    lemma_op_token(op, l2);
                }
                if wrap_l {
                    lemma_parse_operand(*l, true, ts, i, level + 1);
                } else {
                    lemma_parse_level(*l, ts, i, level);
                }
                assert(parse_level(ts, i, level) == parse_level_rest(ts, p, level, *l));
                lemma_parse_operand(*r, wrap_r, ts, p + 1, level + 1);
            },
            _ => {},
        }
    }
}

/// The parser reads an expression back from the tokens of its text.
pub proof fn lemma_tokens_round_trip(e: SpecExpr, ts: Seq<SpecSpanned>)
    requires
        printable(e),
        tokens_at(ts, 0, expr_tokens(e)),
        ts.len() == expr_tokens(e).len(),
    ensures
        parse_one_expr(ts) == Ok::<SpecExpr, SpecParseError>(e),
{
    lemma_parse_full(e, ts, 0);
}

} // verus!
