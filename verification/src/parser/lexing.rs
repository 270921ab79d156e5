//! The proof that the tokenizer reads the tokens of an expression back from
//! the expression's text.

use crate::ast::{BinOp, SpecExpr, SpecValue};
use crate::display::{binop_text, bool_text, expr_text, exprs_text, indexes_text};
use crate::parser::printing::{
    all_printable, expr_tokens, index_tokens, lemma_first_token, level_of, list_tokens, op_token,
    printable, quotable, wrapped,
};
use crate::text::{int_text, is_digit, lemma_nat_text_digits, nat_text};
use crate::token::{
    digits_end, identifier_continue, identifier_start, is_blank, lemma_string_end, next_token,
    skip_blanks, starts_token, string_end, symbol, word_end, word_token, Lexed, SpecToken,
};
use vstd::prelude::*;

verus! {

/// Whether the text `t` stands at the place `p` of `s`.
pub open spec fn text_at(s: Seq<char>, p: int, t: Seq<char>) -> bool {
    &&& 0 <= p
    &&& p + t.len() <= s.len()
    &&& forall|k: int| 0 <= k < t.len() ==> #[trigger] s[p + k] == t[k]
}

/// The character at a place in a text that stands somewhere.
pub proof fn lemma_char_at(s: Seq<char>, p: int, t: Seq<char>, k: int)
    requires
        text_at(s, p, t),
        0 <= k < t.len(),
    ensures
        0 <= p + k < s.len(),
        s[p + k] == t[k],
{
}

/// The text `a + b` stands at a place just if `a` stands there and `b`
/// behind it.
pub proof fn lemma_text_split(s: Seq<char>, p: int, a: Seq<char>, b: Seq<char>)
    requires
        0 <= p,
    ensures
        text_at(s, p, a + b) <==> text_at(s, p, a) && text_at(s, p + a.len(), b),
{
    if text_at(s, p, a + b) {
        assert forall|k: int| 0 <= k < a.len() implies #[trigger] s[p + k] == a[k] by {
            assert((a + b)[k] == a[k]);
        }
        assert forall|k: int| 0 <= k < b.len() implies #[trigger] s[p + a.len() + k] == b[k] by {
            assert((a + b)[a.len() + k] == b[k]);
            assert(s[p + (a.len() + k)] == (a + b)[a.len() + k]);
        }
    }
    if text_at(s, p, a) && text_at(s, p + a.len(), b) {
        assert forall|k: int| 0 <= k < (a + b).len() implies #[trigger] s[p + k] == (a + b)[k] by {
            if k >= a.len() {
                assert(s[p + a.len() + (k - a.len())] == b[k - a.len()]);
            }
        }
    }
}

/// A text that stands somewhere is the part of the whole that begins there.
pub proof fn lemma_text_is(s: Seq<char>, p: int, t: Seq<char>)
    requires
        text_at(s, p, t),
    ensures
        s.subrange(p, p + t.len()) == t,
{
    assert forall|k: int| 0 <= k < t.len() implies s.subrange(p, p + t.len())[k] == t[k] by {
        lemma_char_at(s, p, t, k);
    }
    assert(s.subrange(p, p + t.len()) =~= t);
}

/// Whether what stands at the place `q` ends a word or a number before it:
/// the end of the text, a space, a closing parenthesis or bracket, or a comma.
pub open spec fn stops(s: Seq<char>, q: int) -> bool {
    q >= s.len() || s[q] == ' ' || s[q] == ')' || s[q] == ']' || s[q] == ','
}

/// Whether the tokenizer finds from the place `p` on just the tokens
/// `tokens`, one after the other, the last of them ending at the place `q`.
pub open spec fn lexes(s: Seq<char>, p: int, tokens: Seq<SpecToken>, q: int) -> bool
    decreases tokens.len(),
{
    if tokens.len() == 0 {
        p == q
    } else {
        match next_token(s, p) {
            Lexed::Token { start, token, end } => token == tokens[0] && p <= start < end && lexes(
                s,
                end,
                tokens.drop_first(),
                q,
            ),
            _ => false,
        }
    }
}

/// Tokens found one after the other are found together.
pub proof fn lemma_lexes_concat(
    s: Seq<char>,
    p: int,
    a: Seq<SpecToken>,
    q: int,
    b: Seq<SpecToken>,
    r: int,
)
    requires
        lexes(s, p, a, q),
        lexes(s, q, b, r),
    ensures
        lexes(s, p, a + b, r),
    decreases a.len(),
{
    if a.len() == 0 {
        assert(a + b =~= b);
    } else {
        let end = next_token(s, p)->end;
        lemma_lexes_concat(s, end, a.drop_first(), q, b, r);
        assert((a + b).drop_first() =~= a.drop_first() + b);
    }
}

/// A token that is found at a place is all that is found up to its end.
pub proof fn lemma_lexes_one(s: Seq<char>, p: int, token: SpecToken, q: int)
    requires
        next_token(s, p) == (Lexed::Token { start: p, token, end: q }),
        p < q,
    ensures
        lexes(s, p, seq![token], q),
{
    assert(seq![token].drop_first() =~= Seq::<SpecToken>::empty());
    assert(lexes(s, q, Seq::<SpecToken>::empty(), q));
}

/// A blank before tokens changes nothing of what is found.
pub proof fn lemma_lexes_blank(s: Seq<char>, p: int, tokens: Seq<SpecToken>, q: int)
    requires
        0 <= p < s.len(),
        s[p] == ' ',
        tokens.len() > 0,
        lexes(s, p + 1, tokens, q),
    ensures
        lexes(s, p, tokens, q),
{
    assert(is_blank(' '));
    assert(skip_blanks(s, p) == skip_blanks(s, p + 1));
}

/// The tokenizer finds a token that is one character of punctuation where
/// the character stands.
pub proof fn lemma_lex_symbol(s: Seq<char>, p: int, token: SpecToken)
    requires
        0 <= p < s.len(),
        symbol(s[p]) == Some(token),
    ensures
        next_token(s, p) == (Lexed::Token { start: p, token, end: p + 1 }),
        lexes(s, p, seq![token], p + 1),
{
    assert(starts_token(s[p]));
    assert(skip_blanks(s, p) == p);
    lemma_lexes_one(s, p, token, p + 1);
}

/// Where only digits stand from `p` up to `q`, and no digit at `q`, the
/// digits end at `q`.
pub proof fn lemma_digits_end_at(s: Seq<char>, p: int, q: int)
    requires
        0 <= p <= q <= s.len(),
        forall|k: int| p <= k < q ==> is_digit(#[trigger] s[k]),
        q < s.len() ==> !is_digit(s[q]),
    ensures
        digits_end(s, p) == q,
    decreases q - p,
{
    if p < q {
        lemma_digits_end_at(s, p + 1, q);
    }
}

/// Where only characters of an identifier stand from `p` up to `q`, and
/// none at `q`, the word ends at `q`.
pub proof fn lemma_word_end_at(s: Seq<char>, p: int, q: int)
    requires
        0 <= p <= q <= s.len(),
        forall|k: int| p <= k < q ==> identifier_continue(#[trigger] s[k]),
        q < s.len() ==> !identifier_continue(s[q]),
    ensures
        word_end(s, p) == q,
    decreases q - p,
{
    if p < q {
        lemma_word_end_at(s, p + 1, q);
    }
}

/// The tokenizer finds a number where its text stands, if no digit follows.
pub proof fn lemma_lex_number(s: Seq<char>, p: int, i: i64)
    requires
        text_at(s, p, int_text(i as int)),
        p + int_text(i as int).len() < s.len() ==> !is_digit(s[p + int_text(i as int).len()]),
    ensures
        lexes(s, p, seq![SpecToken::I64(int_text(i as int))], p + int_text(i as int).len()),
{
    let t = int_text(i as int);
    let q = p + t.len();
    lemma_text_is(s, p, t);
    if i < 0 {
        let m = (-(i as int)) as nat;
        lemma_nat_text_digits(m);
        assert(t[0] == '-');
        lemma_char_at(s, p, t, 0);
        lemma_char_at(s, p, t, 1);
        assert(t[1] == nat_text(m)[0]);
        assert forall|k: int| p + 1 <= k < q implies is_digit(#[trigger] s[k]) by {
            lemma_char_at(s, p, t, k - p);
            assert(t[k - p] == nat_text(m)[k - p - 1]);
        }
        lemma_digits_end_at(s, p + 1, q);
    } else {
        lemma_nat_text_digits(i as nat);
        lemma_char_at(s, p, t, 0);
        assert forall|k: int| p <= k < q implies is_digit(#[trigger] s[k]) by {
            lemma_char_at(s, p, t, k - p);
        }
        lemma_digits_end_at(s, p, q);
    }
    assert(starts_token(s[p]));
    assert(skip_blanks(s, p) == p);
    lemma_lexes_one(s, p, SpecToken::I64(t), q);
}

/// Where a text stands, a string literal that ends within the text ends at
/// the same place of the whole, and the other way round.
pub proof fn lemma_string_end_at(s: Seq<char>, p: int, t: Seq<char>, k: int, escape: bool)
    requires
        text_at(s, p, t),
        0 <= k <= t.len(),
    ensures
        string_end(t, k, escape) matches Some(m) ==> string_end(s, p + k, escape) == Some(p + m),
        match string_end(s, p + k, escape) {
            Some(j) => j < p + t.len() ==> string_end(t, k, escape) == Some(j - p),
            None => true,
        },
    decreases t.len() - k,
{
    lemma_string_end(s, p + k, escape);
    if k < t.len() {
        lemma_char_at(s, p, t, k);
        lemma_string_end_at(s, p, t, k + 1, false);
        lemma_string_end_at(s, p, t, k + 1, true);
    }
}

/// The tokenizer finds a string literal where its text stands between
/// quotes.
pub proof fn lemma_lex_string(s: Seq<char>, p: int, text: Seq<char>)
    requires
        text_at(s, p, "\""@ + text + "\""@),
        quotable(text),
    ensures
        lexes(s, p, seq![SpecToken::StringLiteral(text)], p + text.len() + 2),
{
    reveal_strlit("\"");
    let quote = "\""@;
    lemma_text_split(s, p, quote + text, quote);
    lemma_text_split(s, p, quote, text);
    lemma_text_split(s, p + 1, text, quote);
    assert(text + quote =~= text.push('"'));
    lemma_string_end_at(s, p + 1, text.push('"'), 0, false);
    lemma_text_is(s, p + 1, text);
    lemma_char_at(s, p, quote, 0);
    assert(starts_token(s[p]));
    assert(skip_blanks(s, p) == p);
    lemma_lexes_one(s, p, SpecToken::StringLiteral(text), p + text.len() + 2);
}

/// Whether the text is a word: it begins as an identifier begins and goes
/// on as an identifier goes on.
pub open spec fn is_word(w: Seq<char>) -> bool {
    &&& w.len() > 0
    &&& identifier_start(w[0])
    &&& forall|k: int| 1 <= k < w.len() ==> identifier_continue(#[trigger] w[k])
}

/// The tokenizer finds a word where it stands, if nothing follows that an
/// identifier goes on with.
pub proof fn lemma_lex_word(s: Seq<char>, p: int, w: Seq<char>)
    requires
        text_at(s, p, w),
        is_word(w),
        p + w.len() < s.len() ==> !identifier_continue(s[p + w.len()]),
    ensures
        lexes(s, p, seq![word_token(w)], p + w.len()),
{
    let q = p + w.len();
    lemma_text_is(s, p, w);
    lemma_char_at(s, p, w, 0);
    assert forall|k: int| p + 1 <= k < q implies identifier_continue(#[trigger] s[k]) by {
        lemma_char_at(s, p, w, k - p);
    }
    lemma_word_end_at(s, p + 1, q);
    let c = s[p];
    assert(starts_token(c));
    assert(skip_blanks(s, p) == p);
    assert(symbol(c) is None);
    assert(!is_digit(c));
    lemma_lexes_one(s, p, word_token(w), q);
}

/// What ends a word or a number is nothing that an identifier goes on
/// with, and no digit.
pub proof fn lemma_stops(s: Seq<char>, q: int)
    requires
        0 <= q,
        stops(s, q),
    ensures
        q < s.len() ==> !identifier_continue(s[q]) && !is_digit(s[q]),
{
}

/// The length and the first character of each keyword.
pub proof fn lemma_keywords()
    ensures
        "let"@.len() == 3 && "let"@[0] == 'l',
        "print"@.len() == 5 && "print"@[0] == 'p',
        "print_line"@.len() == 10 && "print_line"@[0] == 'p',
        "true"@.len() == 4 && "true"@[0] == 't',
        "false"@.len() == 5 && "false"@[0] == 'f',
        "if"@.len() == 2 && "if"@[0] == 'i',
        "else"@.len() == 4 && "else"@[0] == 'e',
        "while"@.len() == 5 && "while"@[0] == 'w',
        "array"@.len() == 5 && "array"@[0] == 'a',
        "boolean"@.len() == 7 && "boolean"@[0] == 'b',
        "int"@.len() == 3 && "int"@[0] == 'i',
        "string"@.len() == 6 && "string"@[0] == 's',
        "void"@.len() == 4 && "void"@[0] == 'v',
        "return"@.len() == 6 && "return"@[0] == 'r',
        "for"@.len() == 3 && "for"@[0] == 'f',
        "in"@.len() == 2 && "in"@[0] == 'i',
        "range"@.len() == 5 && "range"@[0] == 'r',
        "step"@.len() == 4 && "step"@[0] == 's',
{
    reveal_strlit("let");
    reveal_strlit("print");
    reveal_strlit("print_line");
    reveal_strlit("true");
    reveal_strlit("false");
    reveal_strlit("if");
    reveal_strlit("else");
    reveal_strlit("while");
    reveal_strlit("array");
    reveal_strlit("boolean");
    reveal_strlit("int");
    reveal_strlit("string");
    reveal_strlit("void");
    reveal_strlit("return");
    reveal_strlit("for");
    reveal_strlit("in");
    reveal_strlit("range");
    reveal_strlit("step");
}

/// The words `true`, `false`, `range` and `step` are keywords, and each is
/// a word.
pub proof fn lemma_keyword_tokens()
    ensures
        word_token("true"@) == SpecToken::True,
        word_token("false"@) == SpecToken::False,
        word_token("range"@) == SpecToken::Range,
        word_token("step"@) == SpecToken::Step,
        is_word("true"@),
        is_word("false"@),
        is_word("range"@),
        is_word("step"@),
{
    lemma_keywords();
    reveal_strlit("true");
    reveal_strlit("false");
    reveal_strlit("range");
    reveal_strlit("step");
}

/// The names `length`, `letters` and `readline` are no keywords, and each
/// is a word.
pub proof fn lemma_builtin_names()
    ensures
        word_token("length"@) == SpecToken::Ident("length"@),
        word_token("letters"@) == SpecToken::Ident("letters"@),
        word_token("readline"@) == SpecToken::Ident("readline"@),
        is_word("length"@),
        is_word("letters"@),
        is_word("readline"@),
        "length"@.len() == 6,
        "letters"@.len() == 7,
        "readline"@.len() == 8,
{
    lemma_keywords();
    reveal_strlit("length");
    reveal_strlit("letters");
    reveal_strlit("readline");
}

/// The tokenizer finds a binary operator where its symbol stands with a
/// space behind it.
pub proof fn lemma_lex_operator(s: Seq<char>, p: int, op: BinOp)
    requires
        text_at(s, p, binop_text(op) + " "@),
    ensures
        lexes(s, p, seq![op_token(op)], p + binop_text(op).len()),
        1 <= binop_text(op).len() <= 2,
{
    reveal_strlit(" ");
    reveal_strlit("&&");
    reveal_strlit("||");
    reveal_strlit("==");
    reveal_strlit("!=");
    reveal_strlit(">=");
    reveal_strlit(">");
    reveal_strlit("<=");
    reveal_strlit("<");
    reveal_strlit("+");
    reveal_strlit("-");
    reveal_strlit("*");
    reveal_strlit("/");
    reveal_strlit("%");
    reveal_strlit("++");
    let t = binop_text(op);
    lemma_text_split(s, p, t, " "@);
    lemma_char_at(s, p, t, 0);
    lemma_char_at(s, p + t.len(), " "@, 0);
    if t.len() == 2 {
        lemma_char_at(s, p, t, 1);
    }
    assert(starts_token(s[p]));
    assert(skip_blanks(s, p) == p);
    assert(!is_digit(' '));
    lemma_lexes_one(s, p, op_token(op), p + t.len());
}

/// The text of a printable expression is not empty, and begins with no
/// equals sign.
pub proof fn lemma_first_char(e: SpecExpr)
    requires
        printable(e),
    ensures
        expr_text(e).len() > 0,
        expr_text(e)[0] != '=',
    decreases e,
{
    reveal_strlit("[");
    reveal_strlit("(");
    reveal_strlit("!");
    reveal_strlit("length(");
    reveal_strlit("letters(");
    reveal_strlit("range(");
    reveal_strlit("step(");
    reveal_strlit("readline()");
    reveal_strlit("true");
    reveal_strlit("false");
    match e {
        SpecExpr::BinExp(l, op, r) => {
            lemma_first_char(*l);
        },
        SpecExpr::Value(v) => {
            match v {
                SpecValue::Int(i) => {
                    if i < 0 {
                    } else {
                        lemma_nat_text_digits(i as nat);
                    }
                },
                SpecValue::Str(text) => {
                    reveal_strlit("\"");
                },
                _ => {},
            }
        },
        _ => {},
    }
}

/// The lengths of the marks that stand between the parts of a text.
pub proof fn lemma_marks()
    ensures
        "("@.len() == 1,
        ")"@.len() == 1,
        "["@.len() == 1,
        "]"@.len() == 1,
        ", "@.len() == 2,
        " "@.len() == 1,
        "!"@.len() == 1,
        "length("@.len() == 7,
        "letters("@.len() == 8,
        "range("@.len() == 6,
        "step("@.len() == 5,
        "readline()"@.len() == 10,
{
    reveal_strlit("(");
    reveal_strlit(")");
    reveal_strlit("[");
    reveal_strlit("]");
    reveal_strlit(", ");
    reveal_strlit(" ");
    reveal_strlit("!");
    reveal_strlit("length(");
    reveal_strlit("letters(");
    reveal_strlit("range(");
    reveal_strlit("step(");
    reveal_strlit("readline()");
}

/// The tokenizer finds an opening parenthesis where one stands.
pub proof fn lemma_lex_left_paren(s: Seq<char>, p: int)
    requires
        text_at(s, p, "("@),
    ensures
        lexes(s, p, seq![SpecToken::LeftParen], p + 1),
        "("@.len() == 1,
        s[p] == '(',
{
    reveal_strlit("(");
    lemma_char_at(s, p, "("@, 0);
    lemma_lex_symbol(s, p, SpecToken::LeftParen);
}

/// The tokenizer finds a closing parenthesis where one stands.
pub proof fn lemma_lex_right_paren(s: Seq<char>, p: int)
    requires
        text_at(s, p, ")"@),
    ensures
        lexes(s, p, seq![SpecToken::RightParen], p + 1),
        ")"@.len() == 1,
        s[p] == ')',
{
    reveal_strlit(")");
    lemma_char_at(s, p, ")"@, 0);
    lemma_lex_symbol(s, p, SpecToken::RightParen);
}

/// The tokenizer finds an opening bracket where one stands.
pub proof fn lemma_lex_left_bracket(s: Seq<char>, p: int)
    requires
        text_at(s, p, "["@),
    ensures
        lexes(s, p, seq![SpecToken::LeftBracket], p + 1),
        "["@.len() == 1,
        s[p] == '[',
{
    reveal_strlit("[");
    lemma_char_at(s, p, "["@, 0);
    lemma_lex_symbol(s, p, SpecToken::LeftBracket);
}

/// The tokenizer finds a closing bracket where one stands.
pub proof fn lemma_lex_right_bracket(s: Seq<char>, p: int)
    requires
        text_at(s, p, "]"@),
    ensures
        lexes(s, p, seq![SpecToken::RightBracket], p + 1),
        "]"@.len() == 1,
        s[p] == ']',
{
    reveal_strlit("]");
    lemma_char_at(s, p, "]"@, 0);
    lemma_lex_symbol(s, p, SpecToken::RightBracket);
}

/// The tokenizer finds a comma where a comma and a space stand.
pub proof fn lemma_lex_comma(s: Seq<char>, p: int)
    requires
        text_at(s, p, ", "@),
    ensures
        lexes(s, p, seq![SpecToken::Comma], p + 1),
        ", "@.len() == 2,
        s[p] == ',',
        s[p + 1] == ' ',
{
    reveal_strlit(", ");
    lemma_char_at(s, p, ", "@, 0);
    lemma_char_at(s, p, ", "@, 1);
    lemma_lex_symbol(s, p, SpecToken::Comma);
}

/// The tokenizer finds the sign of negation where it stands before
/// something other than an equals sign.
pub proof fn lemma_lex_bang(s: Seq<char>, p: int)
    requires
        text_at(s, p, "!"@),
        p + 1 < s.len() ==> s[p + 1] != '=',
    ensures
        lexes(s, p, seq![SpecToken::Bang], p + 1),
        "!"@.len() == 1,
{
    reveal_strlit("!");
    lemma_char_at(s, p, "!"@, 0);
    assert(starts_token(s[p]));
    assert(skip_blanks(s, p) == p);
    lemma_lexes_one(s, p, SpecToken::Bang, p + 1);
}

/// The tokenizer finds a name and the opening parenthesis or bracket that
/// follows it.
pub proof fn lemma_lex_head(s: Seq<char>, p: int, name: Seq<char>, paren: bool)
    requires
        is_word(name),
        text_at(
            s,
            p,
            name + (if paren {
                "("@
            } else {
                "["@
            }),
        ),
    ensures
        lexes(
            s,
            p,
            seq![
                word_token(name),
                if paren {
                    SpecToken::LeftParen
                } else {
                    SpecToken::LeftBracket
                },
            ],
            p + name.len() + 1,
        ),
{
    reveal_strlit("(");
    reveal_strlit("[");
    let open = if paren {
        "("@
    } else {
        "["@
    };
    lemma_text_split(s, p, name, open);
    let q = p + name.len();
    lemma_char_at(s, q, open, 0);
    lemma_lex_word(s, p, name);
    let token = if paren {
        SpecToken::LeftParen
    } else {
        SpecToken::LeftBracket
    };
    lemma_lex_symbol(s, q, token);
    lemma_lexes_concat(s, p, seq![word_token(name)], q, seq![token], q + 1);
    assert(seq![word_token(name)] + seq![token] =~= seq![word_token(name), token]);
}

/// The tokenizer finds a built-in name or a keyword and the opening
/// parenthesis behind it where the two stand as one text.
pub proof fn lemma_lex_builtin(s: Seq<char>, p: int, both: Seq<char>, name: Seq<char>)
    requires
        both == "length("@ && name == "length"@ || both == "letters("@ && name == "letters"@
            || both == "readline()"@ && name == "readline"@ || both == "range("@ && name
            == "range"@ || both == "step("@ && name == "step"@,
        text_at(s, p, both),
    ensures
        lexes(s, p, seq![word_token(name), SpecToken::LeftParen], p + name.len() + 1),
        both == "readline()"@ ==> s[p + name.len() + 1] == ')',
        both.len() == name.len() + (if both == "readline()"@ {
            2int
        } else {
            1int
        }),
{
    reveal_strlit("length(");
    reveal_strlit("length");
    reveal_strlit("letters(");
    reveal_strlit("letters");
    reveal_strlit("readline()");
    reveal_strlit("readline");
    reveal_strlit("range(");
    reveal_strlit("range");
    reveal_strlit("step(");
    reveal_strlit("step");
    reveal_strlit("(");
    lemma_builtin_names();
    lemma_keyword_tokens();
    assert forall|k: int| 0 <= k < name.len() implies #[trigger] s[p + k] == name[k] by {
        lemma_char_at(s, p, both, k);
    }
    assert forall|k: int| 0 <= k < "("@.len() implies #[trigger] s[p + name.len() + k] == "("@[k] by {
        lemma_char_at(s, p, both, name.len() + k);
    }
    assert(text_at(s, p, name));
    assert(text_at(s, p + name.len(), "("@));
    lemma_text_split(s, p, name, "("@);
    lemma_lex_head(s, p, name, true);
    if both == "readline()"@ {
        lemma_char_at(s, p, both, 9);
    }
}

/// The tokenizer reads the tokens of an operand back from the operand's text.
pub proof fn lemma_lex_operand(x: SpecExpr, wrap: bool, s: Seq<char>, p: int)
    requires
        printable(x),
        text_at(
            s,
            p,
            if wrap {
                "("@ + expr_text(x) + ")"@
            } else {
                expr_text(x)
            },
        ),
        !wrap ==> stops(s, p + expr_text(x).len()),
    ensures
        lexes(
            s,
            p,
            wrapped(expr_tokens(x), wrap),
            p + expr_text(x).len() + (if wrap {
                2int
            } else {
                0int
            }),
        ),
    decreases x, 5nat,
{
    lemma_marks();
    if wrap {
        let inner = expr_text(x);
        lemma_text_split(s, p, "("@ + inner, ")"@);
        lemma_text_split(s, p, "("@, inner);
        lemma_lex_left_paren(s, p);
        let q = p + 1 + inner.len();
        lemma_lex_right_paren(s, q);
        lemma_lex_expr(x, s, p + 1);
        lemma_lexes_concat(s, p, seq![SpecToken::LeftParen], p + 1, expr_tokens(x), q);
        lemma_lexes_concat(
            s,
            p,
            seq![SpecToken::LeftParen] + expr_tokens(x),
            q,
            seq![SpecToken::RightParen],
            q + 1,
        );
    } else {
        lemma_lex_expr(x, s, p);
    }
}

/// The tokenizer reads the tokens of a binary expression back from the
/// expression's text.
pub proof fn lemma_lex_binary(e: SpecExpr, s: Seq<char>, p: int)
    requires
        printable(e),
        e is BinExp,
        text_at(s, p, expr_text(e)),
        stops(s, p + expr_text(e).len()),
    ensures
        lexes(s, p, expr_tokens(e), p + expr_text(e).len()),
    decreases e, 3nat,
{
    match e {
        SpecExpr::BinExp(l, op, r) => {
            reveal_strlit(" ");
            let level = op.spec_precedence().spec_level();
            let wrap_l = level_of(*l) < level;
            let wrap_r = level_of(*r) <= level;
            let left = if wrap_l {
                "("@ + expr_text(*l) + ")"@
            } else {
                expr_text(*l)
            };
            let right = if wrap_r {
                "("@ + expr_text(*r) + ")"@
            } else {
                expr_text(*r)
            };
            let sym = binop_text(op);
            let at1 = p + left.len();
            let at2 = at1 + 1;
            let at3 = at2 + sym.len();
            let at4 = at3 + 1;
            let q = at4 + right.len();
            assert(expr_text(e) == left + " "@ + sym + " "@ + right);
            lemma_text_split(s, p, left + " "@ + sym + " "@, right);
            lemma_text_split(s, p, left + " "@ + sym, " "@);
            lemma_text_split(s, p, left + " "@, sym);
            lemma_text_split(s, p, left, " "@);
            lemma_text_split(s, at2, sym, " "@);
            lemma_char_at(s, at1, " "@, 0);
            lemma_char_at(s, at3, " "@, 0);
            reveal_strlit("(");
            reveal_strlit(")");
            lemma_lex_operand(*l, wrap_l, s, p);
            lemma_lex_operator(s, at2, op);
            lemma_lexes_blank(s, at1, seq![op_token(op)], at3);
            lemma_lex_operand(*r, wrap_r, s, at4);
            lemma_first_token(*r);
            lemma_lexes_blank(s, at3, wrapped(expr_tokens(*r), wrap_r), q);
            let tl = wrapped(expr_tokens(*l), wrap_l);
            let tr = wrapped(expr_tokens(*r), wrap_r);
            lemma_lexes_concat(s, p, tl, at1, seq![op_token(op)], at3);
            lemma_lexes_concat(s, p, tl + seq![op_token(op)], at3, tr, q);
        },
        _ => {},
    }
}

/// The tokenizer reads the tokens of an expression back from the
/// expression's text, where the text stands before what ends a word.
pub proof fn lemma_lex_expr(e: SpecExpr, s: Seq<char>, p: int)
    requires
        printable(e),
        text_at(s, p, expr_text(e)),
        stops(s, p + expr_text(e).len()),
    ensures
        lexes(s, p, expr_tokens(e), p + expr_text(e).len()),
    decreases e, 4nat,
{
    lemma_marks();
    let q = p + expr_text(e).len();
    match e {
        SpecExpr::Array(items) => {
            let inner = exprs_text(items);
            lemma_text_split(s, p, "["@ + inner, "]"@);
            lemma_text_split(s, p, "["@, inner);
            lemma_lex_left_bracket(s, p);
            lemma_lex_right_bracket(s, q - 1);
            lemma_lex_list(items, s, p + 1);
            lemma_lexes_concat(s, p, seq![SpecToken::LeftBracket], p + 1, list_tokens(items), q - 1);
            lemma_lexes_concat(
                s,
                p,
                seq![SpecToken::LeftBracket] + list_tokens(items),
                q - 1,
                seq![SpecToken::RightBracket],
                q,
            );
        },
        SpecExpr::ArrayElement(var, index, indexes) => {
            let first = expr_text(*index);
            let rest = indexes_text(indexes);
            lemma_text_split(s, p, var + "["@ + first + "]"@, rest);
            lemma_text_split(s, p, var + "["@ + first, "]"@);
            lemma_text_split(s, p, var + "["@, first);
            lemma_lex_head(s, p, var, false);
            let at1 = p + var.len() + 1;
            let at2 = at1 + first.len();
            lemma_lex_right_bracket(s, at2);
            lemma_lex_expr(*index, s, at1);
            lemma_lex_indexes(indexes, s, at2 + 1);
            let head = seq![SpecToken::Ident(var), SpecToken::LeftBracket];
            lemma_lexes_concat(s, p, head, at1, expr_tokens(*index), at2);
            lemma_lexes_concat(
                s,
                p,
                head + expr_tokens(*index),
                at2,
                seq![SpecToken::RightBracket],
                at2 + 1,
            );
            lemma_lexes_concat(
                s,
                p,
                head + expr_tokens(*index) + seq![SpecToken::RightBracket],
                at2 + 1,
                index_tokens(indexes),
                q,
            );
        },
        SpecExpr::BinExp(l, op, r) => {
            lemma_lex_binary(e, s, p);
        },
        SpecExpr::Call(name, args) => {
            let inner = exprs_text(args);
            lemma_text_split(s, p, name + "("@ + inner, ")"@);
            lemma_text_split(s, p, name + "("@, inner);
            lemma_lex_head(s, p, name, true);
            let at1 = p + name.len() + 1;
            lemma_lex_right_paren(s, q - 1);
            lemma_lex_list(args, s, at1);
            let head = seq![SpecToken::Ident(name), SpecToken::LeftParen];
            lemma_lexes_concat(s, p, head, at1, list_tokens(args), q - 1);
            lemma_lexes_concat(
                s,
                p,
                head + list_tokens(args),
                q - 1,
                seq![SpecToken::RightParen],
                q,
            );
        },
        SpecExpr::Length(x) => {
            lemma_lex_call_of_one(e, s, p);
        },
        SpecExpr::Letters(x) => {
            lemma_lex_call_of_one(e, s, p);
        },
        SpecExpr::Not(x) => {
            let wrap = level_of(*x) < 6;
            let operand = if wrap {
                "("@ + expr_text(*x) + ")"@
            } else {
                expr_text(*x)
            };
            lemma_text_split(s, p, "!"@, operand);
            lemma_first_char(*x);
            reveal_strlit("!");
            reveal_strlit("(");
            lemma_marks();
            assert(operand.len() > 0 && operand[0] != '=');
            lemma_char_at(s, p + 1, operand, 0);
            lemma_lex_bang(s, p);
            lemma_lex_operand(*x, wrap, s, p + 1);
            lemma_lexes_concat(
                s,
                p,
                seq![SpecToken::Bang],
                p + 1,
                wrapped(expr_tokens(*x), wrap),
                q,
            );
        },
        SpecExpr::Range(a, b) => {
            lemma_lex_counting(e, s, p);
        },
        SpecExpr::ReadLine => {
            lemma_lex_builtin(s, p, "readline()"@, "readline"@);
            lemma_builtin_names();
            lemma_lex_symbol(s, p + 9, SpecToken::RightParen);
            let head = seq![SpecToken::Ident("readline"@), SpecToken::LeftParen];
            lemma_lexes_concat(s, p, head, p + 9, seq![SpecToken::RightParen], p + 10);
            assert(head + seq![SpecToken::RightParen] =~= expr_tokens(e));
        },
        SpecExpr::Step(a, b, c) => {
            lemma_lex_counting(e, s, p);
        },
        SpecExpr::Value(v) => {
            lemma_stops(s, q);
            match v {
                SpecValue::Int(i) => {
                    lemma_lex_number(s, p, i);
                },
                SpecValue::Bool(b) => {
                    lemma_keyword_tokens();
                    lemma_lex_word(s, p, bool_text(b));
                },
                SpecValue::Str(text) => {
                    reveal_strlit("\"");
                    lemma_lex_string(s, p, text);
                },
                _ => {},
            }
        },
        SpecExpr::Var(name) => {
            lemma_stops(s, q);
            lemma_lex_word(s, p, name);
        },
    }
}

/// The tokenizer reads the tokens of `length(..)` and `letters(..)` back
/// from the text.
pub proof fn lemma_lex_call_of_one(e: SpecExpr, s: Seq<char>, p: int)
    requires
        printable(e),
        e is Length || e is Letters,
        text_at(s, p, expr_text(e)),
    ensures
        lexes(s, p, expr_tokens(e), p + expr_text(e).len()),
    decreases e, 3nat,
{
    lemma_marks();
    let q = p + expr_text(e).len();
    let x = match e {
        SpecExpr::Length(x) => *x,
        SpecExpr::Letters(x) => *x,
        _ => e,
    };
    let both = if e is Length {
        "length("@
    } else {
        "letters("@
    };
    let name = if e is Length {
        "length"@
    } else {
        "letters"@
    };
    let inner = expr_text(x);
    lemma_builtin_names();
    lemma_text_split(s, p, both + inner, ")"@);
    lemma_text_split(s, p, both, inner);
    lemma_lex_builtin(s, p, both, name);
    let at1 = p + name.len() + 1;
    lemma_lex_right_paren(s, q - 1);
    lemma_lex_expr(x, s, at1);
    let head = seq![SpecToken::Ident(name), SpecToken::LeftParen];
    lemma_lexes_concat(s, p, head, at1, expr_tokens(x), q - 1);
    lemma_lexes_concat(s, p, head + expr_tokens(x), q - 1, seq![SpecToken::RightParen], q);
}

/// The tokenizer reads the tokens of `range(..)` and `step(..)` back from
/// the text.
pub proof fn lemma_lex_counting(e: SpecExpr, s: Seq<char>, p: int)
    requires
        printable(e),
        e is Range || e is Step,
        text_at(s, p, expr_text(e)),
    ensures
        lexes(s, p, expr_tokens(e), p + expr_text(e).len()),
    decreases e, 3nat,
{
    if e is Range {
        lemma_lex_range(e, s, p);
    } else {
        lemma_lex_step(e, s, p);
    }
}

/// The tokenizer reads the tokens of `range(..)` back from the text.
pub proof fn lemma_lex_range(e: SpecExpr, s: Seq<char>, p: int)
    requires
        printable(e),
        e is Range,
        text_at(s, p, expr_text(e)),
    ensures
        lexes(s, p, expr_tokens(e), p + expr_text(e).len()),
    decreases e, 2nat,
{
    lemma_marks();
    let q = p + expr_text(e).len();
    lemma_keyword_tokens();
    lemma_keywords();
    match e {
        SpecExpr::Range(a, b) => {
            let ta = expr_text(*a);
            let tb = expr_text(*b);
            lemma_text_split(s, p, "range("@ + ta + ", "@ + tb, ")"@);
            lemma_text_split(s, p, "range("@ + ta + ", "@, tb);
            lemma_text_split(s, p, "range("@ + ta, ", "@);
            lemma_text_split(s, p, "range("@, ta);
            lemma_lex_builtin(s, p, "range("@, "range"@);
            let at1 = p + 6;
            let at2 = at1 + ta.len();
            let at3 = at2 + 2;
            lemma_lex_comma(s, at2);
            lemma_lex_right_paren(s, q - 1);
            lemma_lex_expr(*a, s, at1);
            lemma_lex_expr(*b, s, at3);
            lemma_first_token(*b);
            lemma_lexes_blank(s, at2 + 1, expr_tokens(*b), q - 1);
            let head = seq![SpecToken::Range, SpecToken::LeftParen];
            let comma = seq![SpecToken::Comma];
            lemma_lexes_concat(s, p, head, at1, expr_tokens(*a), at2);
            lemma_lexes_concat(s, p, head + expr_tokens(*a), at2, comma, at2 + 1);
            lemma_lexes_concat(s, p, head + expr_tokens(*a) + comma, at2 + 1, expr_tokens(*b), q - 1);
            lemma_lexes_concat(
                s,
                p,
                head + expr_tokens(*a) + comma + expr_tokens(*b),
                q - 1,
                seq![SpecToken::RightParen],
                q,
            );
        },
        _ => {},
    }
}

/// The tokenizer reads the tokens of `step(..)` back from the text.
pub proof fn lemma_lex_step(e: SpecExpr, s: Seq<char>, p: int)
    requires
        printable(e),
        e is Step,
        text_at(s, p, expr_text(e)),
    ensures
        lexes(s, p, expr_tokens(e), p + expr_text(e).len()),
    decreases e, 2nat,
{
    lemma_marks();
    let q = p + expr_text(e).len();
    lemma_keyword_tokens();
    lemma_keywords();
    match e {
        SpecExpr::Step(a, b, c) => {
            let ta = expr_text(*a);
            let tb = expr_text(*b);
            let tc = expr_text(*c);
            lemma_text_split(s, p, "step("@ + ta + ", "@ + tb + ", "@ + tc, ")"@);
            lemma_text_split(s, p, "step("@ + ta + ", "@ + tb + ", "@, tc);
            lemma_text_split(s, p, "step("@ + ta + ", "@ + tb, ", "@);
            lemma_text_split(s, p, "step("@ + ta + ", "@, tb);
            lemma_text_split(s, p, "step("@ + ta, ", "@);
            lemma_text_split(s, p, "step("@, ta);
            lemma_lex_builtin(s, p, "step("@, "step"@);
            let at1 = p + 5;
            let at2 = at1 + ta.len();
            let at3 = at2 + 2;
            let at4 = at3 + tb.len();
            let at5 = at4 + 2;
            lemma_lex_comma(s, at2);
            lemma_lex_comma(s, at4);
            lemma_lex_right_paren(s, q - 1);
            lemma_lex_expr(*a, s, at1);
            lemma_lex_expr(*b, s, at3);
            lemma_lex_expr(*c, s, at5);
            lemma_first_token(*b);
            lemma_first_token(*c);
            lemma_lexes_blank(s, at2 + 1, expr_tokens(*b), at4);
            lemma_lexes_blank(s, at4 + 1, expr_tokens(*c), q - 1);
            let head = seq![SpecToken::Step, SpecToken::LeftParen];
            let comma = seq![SpecToken::Comma];
            let t1 = head + expr_tokens(*a);
            lemma_lexes_concat(s, p, head, at1, expr_tokens(*a), at2);
            lemma_lexes_concat(s, p, t1, at2, comma, at2 + 1);
            lemma_lexes_concat(s, p, t1 + comma, at2 + 1, expr_tokens(*b), at4);
            lemma_lexes_concat(s, p, t1 + comma + expr_tokens(*b), at4, comma, at4 + 1);
            lemma_lexes_concat(
                s,
                p,
                t1 + comma + expr_tokens(*b) + comma,
                at4 + 1,
                expr_tokens(*c),
                q - 1,
            );
            lemma_lexes_concat(
                s,
                p,
                t1 + comma + expr_tokens(*b) + comma + expr_tokens(*c),
                q - 1,
                seq![SpecToken::RightParen],
                q,
            );
        },
        _ => {},
    }
}

/// The tokenizer reads the tokens of a list of expressions back from the
/// list's text, where the text stands before what ends a word.
pub proof fn lemma_lex_list(items: Seq<SpecExpr>, s: Seq<char>, p: int)
    requires
        all_printable(items),
        text_at(s, p, exprs_text(items)),
        stops(s, p + exprs_text(items).len()),
    ensures
        lexes(s, p, list_tokens(items), p + exprs_text(items).len()),
    decreases items, 0nat,
{
    lemma_marks();
    let q = p + exprs_text(items).len();
    if items.len() == 0 {
    } else if items.len() == 1 {
        lemma_lex_expr(items.last(), s, p);
    } else {
        let before = items.drop_last();
        let last = items.last();
        let t1 = exprs_text(before);
        lemma_text_split(s, p, t1 + ", "@, expr_text(last));
        lemma_text_split(s, p, t1, ", "@);
        let at1 = p + t1.len();
        lemma_lex_comma(s, at1);
        lemma_lex_list(before, s, p);
        lemma_lex_expr(last, s, at1 + 2);
        lemma_first_token(last);
        lemma_lexes_blank(s, at1 + 1, expr_tokens(last), q);
        let comma = seq![SpecToken::Comma];
        lemma_lexes_concat(s, p, list_tokens(before), at1, comma, at1 + 1);
        lemma_lexes_concat(s, p, list_tokens(before) + comma, at1 + 1, expr_tokens(last), q);
    }
}

/// The tokenizer reads the tokens of a chain of indexes back from the
/// chain's text.
pub proof fn lemma_lex_indexes(items: Seq<SpecExpr>, s: Seq<char>, p: int)
    requires
        all_printable(items),
        text_at(s, p, indexes_text(items)),
    ensures
        lexes(s, p, index_tokens(items), p + indexes_text(items).len()),
    decreases items, 0nat,
{
    lemma_marks();
    let q = p + indexes_text(items).len();
    if items.len() == 0 {
    } else {
        let before = items.drop_last();
        let last = items.last();
        let t1 = indexes_text(before);
        let tl = expr_text(last);
        lemma_text_split(s, p, t1 + "["@ + tl, "]"@);
        lemma_text_split(s, p, t1 + "["@, tl);
        lemma_text_split(s, p, t1, "["@);
        let at1 = p + t1.len();
        lemma_lex_left_bracket(s, at1);
        lemma_lex_right_bracket(s, q - 1);
        lemma_lex_indexes(before, s, p);
        lemma_lex_expr(last, s, at1 + 1);
        let open = seq![SpecToken::LeftBracket];
        lemma_lexes_concat(s, p, index_tokens(before), at1, open, at1 + 1);
        lemma_lexes_concat(s, p, index_tokens(before) + open, at1 + 1, expr_tokens(last), q - 1);
        lemma_lexes_concat(
            s,
            p,
            index_tokens(before) + open + expr_tokens(last),
            q - 1,
            seq![SpecToken::RightBracket],
            q,
        );
    }
}

} // verus!
