//! The tokenizer: from source text to located tokens.
//!
//! Places in the text are counted in characters by the `*_at` and `*_end`
//! functions, and reported to the caller as offsets in bytes.

use crate::text::{char_is_digit, chars_of, is_digit, string_of};
use unicode_xid::UnicodeXID;
use vstd::prelude::*;
use vstd::string::StringExecFns;
use vstd::utf8::{char_is_scalar, encode_scalar, encode_utf8};

verus! {

/// A lexical error: where in the text, and why.
#[derive(Clone, Debug, PartialEq, Eq)]
pub struct Error {
    pub location: usize,
    pub message: String,
}

/// Mathematical model of a token.
pub enum SpecToken {
    True,
    False,
    I64(Seq<char>),
    StringLiteral(Seq<char>),
    Ident(Seq<char>),
    Let,
    Print,
    PrintLine,
    If,
    Else,
    While,
    Return,
    For,
    In,
    Range,
    Step,
    Array,
    Boolean,
    Int,
    Str,
    Void,
    Bang,
    DoubleAmp,
    DoubleBars,
    Equal,
    DoubleEqual,
    NotEqual,
    GreaterOrEqual,
    GreaterThan,
    LessOrEqual,
    LessThan,
    Minus,
    Percent,
    Plus,
    DoublePlus,
    Slash,
    Star,
    Comma,
    Semicolon,
    LeftParen,
    RightParen,
    LeftBrace,
    RightBrace,
    LeftBracket,
    RightBracket,
}

#[derive(Debug, PartialEq, Eq)]
pub enum Token {
    // Literals
    True,
    False,
    I64(String),
    StringLiteral(String),
    // Identifiers
    Ident(String),
    // Keywords
    Let,
    Print,
    PrintLine,
    If,
    Else,
    While,
    Return,
    For,
    In,
    Range,
    Step,
    // Types
    Array,
    Boolean,
    Int,
    Str,
    Void,
    // Operators
    Bang,
    DoubleAmp,
    DoubleBars,
    Equal,
    DoubleEqual,
    NotEqual,
    GreaterOrEqual,
    GreaterThan,
    LessOrEqual,
    LessThan,
    Minus,
    Percent,
    Plus,
    DoublePlus,
    Slash,
    Star,
    // Punctuation
    Comma,
    Semicolon,
    LeftParen,
    RightParen,
    LeftBrace,
    RightBrace,
    LeftBracket,
    RightBracket,
}

impl View for Token {
    type V = SpecToken;

    open spec fn view(&self) -> SpecToken {
        match self {
            Token::True => SpecToken::True,
            Token::False => SpecToken::False,
            Token::I64(s) => SpecToken::I64(s@),
            Token::StringLiteral(s) => SpecToken::StringLiteral(s@),
            Token::Ident(s) => SpecToken::Ident(s@),
            Token::Let => SpecToken::Let,
            Token::Print => SpecToken::Print,
            Token::PrintLine => SpecToken::PrintLine,
            Token::If => SpecToken::If,
            Token::Else => SpecToken::Else,
            Token::While => SpecToken::While,
            Token::Return => SpecToken::Return,
            Token::For => SpecToken::For,
            Token::In => SpecToken::In,
            Token::Range => SpecToken::Range,
            Token::Step => SpecToken::Step,
            Token::Array => SpecToken::Array,
            Token::Boolean => SpecToken::Boolean,
            Token::Int => SpecToken::Int,
            Token::Str => SpecToken::Str,
            Token::Void => SpecToken::Void,
            Token::Bang => SpecToken::Bang,
            Token::DoubleAmp => SpecToken::DoubleAmp,
            Token::DoubleBars => SpecToken::DoubleBars,
            Token::Equal => SpecToken::Equal,
            Token::DoubleEqual => SpecToken::DoubleEqual,
            Token::NotEqual => SpecToken::NotEqual,
            Token::GreaterOrEqual => SpecToken::GreaterOrEqual,
            Token::GreaterThan => SpecToken::GreaterThan,
            Token::LessOrEqual => SpecToken::LessOrEqual,
            Token::LessThan => SpecToken::LessThan,
            Token::Minus => SpecToken::Minus,
            Token::Percent => SpecToken::Percent,
            Token::Plus => SpecToken::Plus,
            Token::DoublePlus => SpecToken::DoublePlus,
            Token::Slash => SpecToken::Slash,
            Token::Star => SpecToken::Star,
            Token::Comma => SpecToken::Comma,
            Token::Semicolon => SpecToken::Semicolon,
            Token::LeftParen => SpecToken::LeftParen,
            Token::RightParen => SpecToken::RightParen,
            Token::LeftBrace => SpecToken::LeftBrace,
            Token::RightBrace => SpecToken::RightBrace,
            Token::LeftBracket => SpecToken::LeftBracket,
            Token::RightBracket => SpecToken::RightBracket,
        }
    }
}

impl Clone for Token {
    fn clone(&self) -> (r: Token)
        ensures
            r@ == self@,
    {
        match self {
            Token::True => Token::True,
            Token::False => Token::False,
            Token::I64(s) => Token::I64(s.clone()),
            Token::StringLiteral(s) => Token::StringLiteral(s.clone()),
            Token::Ident(s) => Token::Ident(s.clone()),
            Token::Let => Token::Let,
            Token::Print => Token::Print,
            Token::PrintLine => Token::PrintLine,
            Token::If => Token::If,
            Token::Else => Token::Else,
            Token::While => Token::While,
            Token::Return => Token::Return,
            Token::For => Token::For,
            Token::In => Token::In,
            Token::Range => Token::Range,
            Token::Step => Token::Step,
            Token::Array => Token::Array,
            Token::Boolean => Token::Boolean,
            Token::Int => Token::Int,
            Token::Str => Token::Str,
            Token::Void => Token::Void,
            Token::Bang => Token::Bang,
            Token::DoubleAmp => Token::DoubleAmp,
            Token::DoubleBars => Token::DoubleBars,
            Token::Equal => Token::Equal,
            Token::DoubleEqual => Token::DoubleEqual,
            Token::NotEqual => Token::NotEqual,
            Token::GreaterOrEqual => Token::GreaterOrEqual,
            Token::GreaterThan => Token::GreaterThan,
            Token::LessOrEqual => Token::LessOrEqual,
            Token::LessThan => Token::LessThan,
            Token::Minus => Token::Minus,
            Token::Percent => Token::Percent,
            Token::Plus => Token::Plus,
            Token::DoublePlus => Token::DoublePlus,
            Token::Slash => Token::Slash,
            Token::Star => Token::Star,
            Token::Comma => Token::Comma,
            Token::Semicolon => Token::Semicolon,
            Token::LeftParen => Token::LeftParen,
            Token::RightParen => Token::RightParen,
            Token::LeftBrace => Token::LeftBrace,
            Token::RightBrace => Token::RightBrace,
            Token::LeftBracket => Token::LeftBracket,
            Token::RightBracket => Token::RightBracket,
        }
    }
}

/// Whether the tables of the crate `unicode_xid` list `c`, which is no ASCII
/// character, under the Unicode property XID_Start.
pub uninterp spec fn xid_start(c: char) -> bool;

/// Whether the tables of the crate `unicode_xid` list `c`, which is no ASCII
/// character, under the Unicode property XID_Continue.
pub uninterp spec fn xid_continue(c: char) -> bool;

/// Whether `c` is an ASCII letter.
pub open spec fn is_ascii_letter(c: char) -> bool {
    ('a' <= c <= 'z') || ('A' <= c <= 'Z')
}

/// Whether an identifier can begin with `c`: an ASCII letter, or a
/// character beyond ASCII with the property XID_Start.
pub open spec fn identifier_start(c: char) -> bool {
    is_ascii_letter(c) || (c > '\x7f' && xid_start(c))
}

/// Whether an identifier can go on with `c`: an ASCII letter or digit, an
/// underscore, or a character beyond ASCII with the property XID_Continue.
pub open spec fn identifier_continue(c: char) -> bool {
    is_ascii_letter(c) || is_digit(c) || c == '_' || (c > '\x7f' && xid_continue(c))
}

/// Whether `c` is white space, that is, has the Unicode property
/// White_Space: the controls from the tab to the carriage return, the space,
/// the next-line control, the no-break spaces, the Ogham space mark, the
/// spaces from the en quad to the hair space, the line and the paragraph
/// separator, the medium mathematical space and the ideographic space.
pub open spec fn whitespace(c: char) -> bool {
    ('\u{9}' <= c <= '\u{d}') || c == ' ' || c == '\u{85}' || c == '\u{a0}' || c == '\u{1680}' || (
    '\u{2000}' <= c <= '\u{200a}') || c == '\u{2028}' || c == '\u{2029}' || c == '\u{202f}' || c
        == '\u{205f}' || c == '\u{3000}'
}

/// `UnicodeXID::is_xid_start` of the crate `unicode_xid` tells whether a
/// character has the property XID_Start: for an ASCII character, whether it is
/// a letter; for another, what the crate's tables say.
#[verifier::external_body]
fn is_identifier_start(c: char) -> (b: bool)
    ensures
        b == (is_ascii_letter(c) || (c > '\x7f' && xid_start(c))),
{
    UnicodeXID::is_xid_start(c)
}

/// `UnicodeXID::is_xid_continue` of the crate `unicode_xid` tells whether a
/// character has the property XID_Continue: for an ASCII character, whether
/// it is a letter, a digit or the underscore; for another, what the crate's
/// tables say.
#[verifier::external_body]
fn is_identifier_continue(c: char) -> (b: bool)
    ensures
        b == (is_ascii_letter(c) || is_digit(c) || c == '_' || (c > '\x7f' && xid_continue(c))),
{
    UnicodeXID::is_xid_continue(c)
}

/// `char::is_whitespace` tells whether a character has the Unicode
/// property White_Space; the contract lists the characters that have it.
#[verifier::external_body]
fn is_whitespace(c: char) -> (b: bool)
    ensures
        b == whitespace(c),
{
    c.is_whitespace()
}

/// What the tokenizer finds from a place in the text on. Places are counted
/// in characters.
pub enum Lexed {
    /// Nothing but blanks up to the end of the text.
    End,
    /// A token, from `start` up to `end`.
    Token { start: int, token: SpecToken, end: int },
    /// A lexical error at `location`; the tokenizer is left at `resume`.
    Error { location: int, message: Seq<char>, resume: int },
}

/// The token that a one-character symbol makes by itself, if it is one.
pub open spec fn symbol(c: char) -> Option<SpecToken> {
    if c == '%' {
        Some(SpecToken::Percent)
    } else if c == '/' {
        Some(SpecToken::Slash)
    } else if c == '*' {
        Some(SpecToken::Star)
    } else if c == ',' {
        Some(SpecToken::Comma)
    } else if c == ';' {
        Some(SpecToken::Semicolon)
    } else if c == '(' {
        Some(SpecToken::LeftParen)
    } else if c == ')' {
        Some(SpecToken::RightParen)
    } else if c == '{' {
        Some(SpecToken::LeftBrace)
    } else if c == '}' {
        Some(SpecToken::RightBrace)
    } else if c == '[' {
        Some(SpecToken::LeftBracket)
    } else if c == ']' {
        Some(SpecToken::RightBracket)
    } else {
        None
    }
}

/// Whether a token or a lexical error begins with `c`, whatever else `c` is.
pub open spec fn starts_token(c: char) -> bool {
    c == '!' || c == '&' || c == '|' || c == '=' || c == '>' || c == '<' || c == '-' || c == '+'
        || c == '"' || symbol(c) is Some || is_digit(c) || identifier_start(c)
}

/// Whether `c` is skipped between tokens.
pub open spec fn is_blank(c: char) -> bool {
    !starts_token(c) && whitespace(c)
}

/// The number of the line after the blanks `s[from..to]` were skipped, where
/// it was `n` before them: one more for each line feed among them, as far as
/// the machine can count.
pub open spec fn lines_after(n: nat, s: Seq<char>, from: int, to: int) -> nat
    decreases to - from,
{
    if from >= to || !(0 <= from < s.len()) {
        n
    } else if s[from] == '\n' && n < usize::MAX {
        lines_after(n + 1, s, from + 1, to)
    } else {
        lines_after(n, s, from + 1, to)
    }
}

/// The first place from `i` on that holds no blank.
pub open spec fn skip_blanks(s: Seq<char>, i: int) -> int
    decreases s.len() - i,
{
    if 0 <= i < s.len() && is_blank(s[i]) {
        skip_blanks(s, i + 1)
    } else {
        i
    }
}

/// The first place from `i` on that holds no digit.
pub open spec fn digits_end(s: Seq<char>, i: int) -> int
    decreases s.len() - i,
{
    if 0 <= i < s.len() && is_digit(s[i]) {
        digits_end(s, i + 1)
    } else {
        i
    }
}

/// The first place from `i` on that holds no character of an identifier.
pub open spec fn word_end(s: Seq<char>, i: int) -> int
    decreases s.len() - i,
{
    if 0 <= i < s.len() && identifier_continue(s[i]) {
        word_end(s, i + 1)
    } else {
        i
    }
}

/// The place of the quote that ends a string literal whose text goes on at
/// `i`. A character behind a backslash is taken as it is and ends nothing;
/// `escape` says that `i` is behind one.
pub open spec fn string_end(s: Seq<char>, i: int, escape: bool) -> Option<int>
    decreases s.len() - i,
{
    if !(0 <= i < s.len()) {
        None
    } else if escape {
        string_end(s, i + 1, false)
    } else if s[i] == '\\' {
        string_end(s, i + 1, true)
    } else if s[i] == '"' {
        Some(i)
    } else {
        string_end(s, i + 1, false)
    }
}

/// The token that a word makes: a keyword, or else an identifier.
pub open spec fn word_token(word: Seq<char>) -> SpecToken {
    if word == "let"@ {
        SpecToken::Let
    } else if word == "print"@ {
        SpecToken::Print
    } else if word == "print_line"@ {
        SpecToken::PrintLine
    } else if word == "true"@ {
        SpecToken::True
    } else if word == "false"@ {
        SpecToken::False
    } else if word == "if"@ {
        SpecToken::If
    } else if word == "else"@ {
        SpecToken::Else
    } else if word == "while"@ {
        SpecToken::While
    } else if word == "array"@ {
        SpecToken::Array
    } else if word == "boolean"@ {
        SpecToken::Boolean
    } else if word == "int"@ {
        SpecToken::Int
    } else if word == "string"@ {
        SpecToken::Str
    } else if word == "void"@ {
        SpecToken::Void
    } else if word == "return"@ {
        SpecToken::Return
    } else if word == "for"@ {
        SpecToken::For
    } else if word == "in"@ {
        SpecToken::In
    } else if word == "range"@ {
        SpecToken::Range
    } else if word == "step"@ {
        SpecToken::Step
    } else {
        SpecToken::Ident(word)
    }
}

/// The token, or the lexical error, that begins at the place `i`, which
/// holds no blank.
pub open spec fn token_at(s: Seq<char>, i: int) -> Lexed {
    let c = s[i];
    let two = i + 1 < s.len();
    let d = s[i + 1];
    if c == '!' {
        if two && d == '=' {
            Lexed::Token { start: i, token: SpecToken::NotEqual, end: i + 2 }
        } else {
            Lexed::Token { start: i, token: SpecToken::Bang, end: i + 1 }
        }
    } else if c == '&' {
        if two && d == '&' {
            Lexed::Token { start: i, token: SpecToken::DoubleAmp, end: i + 2 }
        } else if two {
            Lexed::Error { location: i, message: "Unrecognized token: &"@.push(d), resume: i + 1 }
        } else {
            Lexed::Error { location: i, message: "Unrecognized token: &"@, resume: i + 1 }
        }
    } else if c == '|' {
        if two && d == '|' {
            Lexed::Token { start: i, token: SpecToken::DoubleBars, end: i + 2 }
        } else if two {
            Lexed::Error { location: i, message: "Unrecognized token: |"@.push(d), resume: i + 1 }
        } else {
            Lexed::Error { location: i, message: "Unrecognized token: |"@, resume: i + 1 }
        }
    } else if c == '=' {
        if two && d == '=' {
            Lexed::Token { start: i, token: SpecToken::DoubleEqual, end: i + 2 }
        } else {
            Lexed::Token { start: i, token: SpecToken::Equal, end: i + 1 }
        }
    } else if c == '>' {
        if two && d == '=' {
            Lexed::Token { start: i, token: SpecToken::GreaterOrEqual, end: i + 2 }
        } else {
            Lexed::Token { start: i, token: SpecToken::GreaterThan, end: i + 1 }
        }
    } else if c == '<' {
        if two && d == '=' {
            Lexed::Token { start: i, token: SpecToken::LessOrEqual, end: i + 2 }
        } else {
            Lexed::Token { start: i, token: SpecToken::LessThan, end: i + 1 }
        }
    } else if c == '-' {
        if two && is_digit(d) {
            let end = digits_end(s, i + 1);
            Lexed::Token { start: i, token: SpecToken::I64(s.subrange(i, end)), end }
        } else {
            Lexed::Token { start: i, token: SpecToken::Minus, end: i + 1 }
        }
    } else if c == '+' {
        if two && d == '+' {
            Lexed::Token { start: i, token: SpecToken::DoublePlus, end: i + 2 }
        } else {
            Lexed::Token { start: i, token: SpecToken::Plus, end: i + 1 }
        }
    } else if c == '"' {
        match string_end(s, i + 1, false) {
            Some(j) => Lexed::Token {
                start: i,
                token: SpecToken::StringLiteral(s.subrange(i + 1, j)),
                end: j + 1,
            },
            None => Lexed::Error {
                location: i,
                message: "Unterminated string literal"@,
                resume: s.len() as int,
            },
        }
    } else if symbol(c) is Some {
        Lexed::Token { start: i, token: symbol(c)->0, end: i + 1 }
    } else if is_digit(c) {
        let end = digits_end(s, i);
        Lexed::Token { start: i, token: SpecToken::I64(s.subrange(i, end)), end }
    } else if identifier_start(c) {
        let end = word_end(s, i + 1);
        Lexed::Token { start: i, token: word_token(s.subrange(i, end)), end }
    } else {
        Lexed::Error { location: i, message: "Unrecognized token: "@.push(c), resume: i }
    }
}

/// What the tokenizer finds from the place `pos` on: blanks are skipped,
/// then a token or a lexical error begins, or the text ends.
pub open spec fn next_token(s: Seq<char>, pos: int) -> Lexed {
    let i = skip_blanks(s, pos);
    if i >= s.len() {
        Lexed::End
    } else {
        token_at(s, i)
    }
}

/// The offset in bytes of the place `i` in the text `s`.
pub open spec fn byte_offset(s: Seq<char>, i: int) -> int {
    encode_utf8(s).len() - encode_utf8(s.skip(i)).len()
}

/// The offset of a place is that of the place before it plus the width of
/// the character between them, and no offset is beyond the text.
pub proof fn lemma_byte_offset_step(s: Seq<char>, i: int)
    requires
        0 <= i < s.len(),
    ensures
        byte_offset(s, i + 1) == byte_offset(s, i) + encode_scalar(s[i] as u32).len(),
        0 <= byte_offset(s, i) < byte_offset(s, i + 1) <= encode_utf8(s).len(),
    decreases i,
{
    assert(s.skip(i).drop_first() =~= s.skip(i + 1));
    assert(s.skip(i)[0] == s[i]);
    if i > 0 {
        lemma_byte_offset_step(s, i - 1);
    } else {
        assert(s.skip(0) =~= s);
    }
}

/// A located token: where it starts, the token, and where it ends.
pub type Spanned = (usize, Token, usize);

pub struct Tokenizer {
    chars: Vec<char>,
    // The place of the next character, and its offset in bytes.
    pos: usize,
    offset: usize,
    // The length of the text in bytes.
    total: usize,
    line_num: usize,
    shift: usize,
}

impl Tokenizer {
    /// The text that is tokenized.
    pub closed spec fn source(&self) -> Seq<char> {
        self.chars@
    }

    /// The place of the next character, counted in characters.
    pub closed spec fn position(&self) -> int {
        self.pos as int
    }

    /// What is added to every offset that is reported.
    pub closed spec fn spec_shift(&self) -> int {
        self.shift as int
    }

    /// The number of the line that the tokenizer has come to, as far as it
    /// has counted: one more than the line feeds it has skipped between
    /// tokens.
    pub closed spec fn lines(&self) -> nat {
        self.line_num as nat
    }

    /// The number of the line that the tokenizer has come to.
    pub fn line_num(&self) -> (n: usize)
        ensures
            n == self.lines(),
    {
        self.line_num
    }

    /// The tokenizer's pieces fit together: the place lies in the text, the
    /// offset is that of the place, and no shifted offset overflows.
    pub closed spec fn wf(&self) -> bool {
        &&& self.pos <= self.chars.len()
        &&& self.offset == byte_offset(self.chars@, self.pos as int)
        &&& self.total == encode_utf8(self.chars@).len()
        &&& self.total + self.shift <= usize::MAX
    }

    /// The place of the next character lies in the text or at its end.
    pub proof fn lemma_position(&self)
        requires
            self.wf(),
        ensures
            0 <= self.position() <= self.source().len(),
    {
    }

    /// A tokenizer at the start of `text`, which adds `shift` to every offset.
    pub fn new(text: &str, shift: usize) -> (t: Tokenizer)
        requires
            encode_utf8(text@).len() + shift <= usize::MAX,
        ensures
            t.wf(),
            t.source() == text@,
            t.position() == 0,
            t.spec_shift() == shift,
            t.lines() == 1,
    {
        let chars = chars_of(text);
        let total = text.as_bytes().len();
        assert(chars@.skip(0) =~= chars@);
        Tokenizer { chars, pos: 0, offset: 0, total, line_num: 1, shift }
    }

    /// The next character, if there is one, with its offset.
    fn look_ahead(&self) -> (r: Option<(usize, char)>)
        requires
            self.wf(),
        ensures
            match r {
                Some((idx, c)) => self.position() < self.source().len() && c == self.source()[self.position()]
                    && idx == byte_offset(self.source(), self.position()),
                None => self.position() == self.source().len(),
            },
    {
        if self.pos < self.chars.len() {
            Some((self.offset, self.chars[self.pos]))
        } else {
            None
        }
    }

    /// The offset of the next character, or of the end of the text.
    fn here(&self) -> (idx: usize)
        requires
            self.wf(),
        ensures
            idx == byte_offset(self.source(), self.position()),
            idx + self.spec_shift() <= usize::MAX,
    {
        proof {
            if self.pos < self.chars.len() {
                lemma_byte_offset_step(self.chars@, self.pos as int);
            } else {
                assert(self.chars@.skip(self.pos as int) =~= Seq::<char>::empty());
            }
        }
        self.offset
    }

    /// Moves on by one character, if there is one, and gives the character
    /// that is then the next.
    fn bump(&mut self) -> (r: Option<(usize, char)>)
        requires
            old(self).wf(),
        ensures
            final(self).wf(),
            final(self).source() == old(self).source(),
            final(self).spec_shift() == old(self).spec_shift(),
            final(self).lines() == old(self).lines(),
            final(self).position() == if old(self).position() < old(self).source().len() {
                old(self).position() + 1
            } else {
                old(self).position()
            },
            match r {
                Some((idx, c)) => final(self).position() < final(self).source().len() && c
                    == final(self).source()[final(self).position()] && idx == byte_offset(
                    final(self).source(),
                    final(self).position(),
                ),
                None => final(self).position() == final(self).source().len(),
            },
    {
        if self.pos < self.chars.len() {
            let c = self.chars[self.pos];
            let code = c as u32;
            let width: usize = if code <= 0x7F {
                1
            } else if code <= 0x7FF {
                2
            } else if code <= 0xFFFF {
                3
            } else {
                4
            };
            proof {
                char_is_scalar(c);
                lemma_byte_offset_step(self.chars@, self.pos as int);
            }
            self.offset = self.offset + width;
            self.pos = self.pos + 1;
        }
        self.look_ahead()
    }

    /// Skips the blanks from the next character on.
    fn skip_blanks(&mut self)
        requires
            old(self).wf(),
        ensures
            final(self).wf(),
            final(self).source() == old(self).source(),
            final(self).spec_shift() == old(self).spec_shift(),
            final(self).position() == skip_blanks(old(self).source(), old(self).position()),
            final(self).position() <= final(self).source().len(),
            final(self).lines() == lines_after(
                old(self).lines(),
                old(self).source(),
                old(self).position(),
                final(self).position(),
            ),
    {
        let ghost target = skip_blanks(self.source(), self.position());
        loop
            invariant
                self.wf(),
                self.source() == old(self).source(),
                self.spec_shift() == old(self).spec_shift(),
                skip_blanks(self.source(), self.position()) == target,
                target == skip_blanks(old(self).source(), old(self).position()),
                lines_after(self.lines(), self.source(), self.position(), target) == lines_after(
                    old(self).lines(),
                    old(self).source(),
                    old(self).position(),
                    target,
                ),
            decreases self.source().len() - self.position(),
        {
            proof {
                lemma_skip_blanks(self.source(), self.position());
                if self.position() < self.source().len() {
                    lemma_skip_blanks(self.source(), self.position() + 1);
                }
            }
            match self.look_ahead() {
                Some((_, c)) => {
                    if starts_token_char(c) {
                        return ;
                    }
                    if c == '\n' {
                        if self.line_num < usize::MAX {
                            self.line_num = self.line_num + 1;
                        }
                    } else if !is_whitespace(c) {
                        return ;
                    }
                    self.bump();
                },
                None => {
                    return ;
                },
            }
        }
    }

    /// Moves on to the first character that is no digit, or to the end.
    fn take_digits(&mut self)
        requires
            old(self).wf(),
        ensures
            final(self).wf(),
            final(self).source() == old(self).source(),
            final(self).spec_shift() == old(self).spec_shift(),
            final(self).lines() == old(self).lines(),
            final(self).position() == digits_end(old(self).source(), old(self).position()),
            old(self).position() <= final(self).position() <= final(self).source().len(),
    {
        loop
            invariant
                self.wf(),
                self.source() == old(self).source(),
                self.spec_shift() == old(self).spec_shift(),
                self.lines() == old(self).lines(),
                old(self).position() <= self.position() <= self.source().len(),
                digits_end(self.source(), self.position()) == digits_end(
                    old(self).source(),
                    old(self).position(),
                ),
            decreases self.source().len() - self.position(),
        {
            match self.look_ahead() {
                Some((_, c)) => {
                    if !char_is_digit(c) {
                        return ;
                    }
                    self.bump();
                },
                None => {
                    return ;
                },
            }
        }
    }

    /// Moves on to the first character that cannot stand in an identifier,
    /// or to the end.
    fn take_word(&mut self)
        requires
            old(self).wf(),
        ensures
            final(self).wf(),
            final(self).source() == old(self).source(),
            final(self).spec_shift() == old(self).spec_shift(),
            final(self).lines() == old(self).lines(),
            final(self).position() == word_end(old(self).source(), old(self).position()),
            old(self).position() <= final(self).position() <= final(self).source().len(),
    {
        loop
            invariant
                self.wf(),
                self.source() == old(self).source(),
                self.spec_shift() == old(self).spec_shift(),
                self.lines() == old(self).lines(),
                old(self).position() <= self.position() <= self.source().len(),
                word_end(self.source(), self.position()) == word_end(
                    old(self).source(),
                    old(self).position(),
                ),
            decreases self.source().len() - self.position(),
        {
            match self.look_ahead() {
                Some((_, c)) => {
                    if !is_identifier_continue(c) {
                        return ;
                    }
                    self.bump();
                },
                None => {
                    return ;
                },
            }
        }
    }

    /// The text from the place `from` up to the next character.
    fn text_since(&self, from: usize) -> (s: String)
        requires
            self.wf(),
            from <= self.position(),
        ensures
            s@ == self.source().subrange(from as int, self.position()),
    {
        string_of(&self.chars, from, self.pos)
    }

    /// The string literal whose opening quote, at the offset `idx0`, was
    /// just passed.
    fn string_literal(&mut self, idx0: usize) -> (r: Result<Spanned, Error>)
        requires
            old(self).wf(),
            old(self).position() >= 1,
            idx0 == byte_offset(old(self).source(), old(self).position() - 1),
        ensures
            final(self).wf(),
            final(self).source() == old(self).source(),
            final(self).spec_shift() == old(self).spec_shift(),
            final(self).lines() == old(self).lines(),
            match string_end(old(self).source(), old(self).position(), false) {
                Some(j) => r matches Ok((l, t, e)) && l == idx0 && t@ == SpecToken::StringLiteral(
                    old(self).source().subrange(old(self).position(), j),
                ) && e == byte_offset(old(self).source(), j + 1) && final(self).position() == j + 1,
                None => r matches Err(e) && e.location == idx0 && e.message@
                    == "Unterminated string literal"@ && final(self).position() == old(
                    self,
                ).source().len(),
            },
    {
        let first = self.pos;
        let mut escape = false;
        loop
            invariant
                self.wf(),
                self.source() == old(self).source(),
                self.spec_shift() == old(self).spec_shift(),
                self.lines() == old(self).lines(),
                first == old(self).position(),
                first <= self.position() <= self.source().len(),
                string_end(self.source(), self.position(), escape) == string_end(
                    old(self).source(),
                    old(self).position(),
                    false,
                ),
            decreases self.source().len() - self.position(),
        {
            match self.look_ahead() {
                Some((_, c)) => {
                    if escape {
                        escape = false;
                    } else if c == '\\' {
                        escape = true;
                    } else if c == '"' {
                        let text = self.text_since(first);
                        self.bump();  // consume the '"'
                        let end = self.here();
                        return Ok((idx0, Token::StringLiteral(text), end));
                    }
                    self.bump();
                },
                None => {
                    return Err(
                        Error {
                            location: idx0,
                            message: String::from_str("Unterminated string literal"),
                        },
                    );
                },
            }
        }
    }

    /// The word that begins at the place `start`, whose offset is `idx0`;
    /// its first character was just passed.
    fn identifierish(&mut self, start: usize, idx0: usize) -> (r: Spanned)
        requires
            old(self).wf(),
            old(self).position() == start + 1,
            idx0 == byte_offset(old(self).source(), start as int),
        ensures
            final(self).wf(),
            final(self).source() == old(self).source(),
            final(self).spec_shift() == old(self).spec_shift(),
            final(self).lines() == old(self).lines(),
            final(self).position() == word_end(old(self).source(), start + 1),
            r.0 == idx0,
            r.1@ == word_token(
                old(self).source().subrange(start as int, word_end(old(self).source(), start + 1)),
            ),
            r.2 == byte_offset(old(self).source(), word_end(old(self).source(), start + 1)),
    {
        self.take_word();
        let word = self.text_since(start);
        let end = self.here();
        let token = if is(&word, "let") {
            Token::Let
        } else if is(&word, "print") {
            Token::Print
        } else if is(&word, "print_line") {
            Token::PrintLine
        } else if is(&word, "true") {
            Token::True
        } else if is(&word, "false") {
            Token::False
        } else if is(&word, "if") {
            Token::If
        } else if is(&word, "else") {
            Token::Else
        } else if is(&word, "while") {
            Token::While
        } else if is(&word, "array") {
            Token::Array
        } else if is(&word, "boolean") {
            Token::Boolean
        } else if is(&word, "int") {
            Token::Int
        } else if is(&word, "string") {
            Token::Str
        } else if is(&word, "void") {
            Token::Void
        } else if is(&word, "return") {
            Token::Return
        } else if is(&word, "for") {
            Token::For
        } else if is(&word, "in") {
            Token::In
        } else if is(&word, "range") {
            Token::Range
        } else if is(&word, "step") {
            Token::Step
        } else {
            Token::Ident(word)
        };
        (idx0, token, end)
    }

    /// The number that begins at the place `start`, whose offset is `idx0`;
    /// the next character is its first digit.
    fn num(&mut self, start: usize, idx0: usize) -> (r: Spanned)
        requires
            old(self).wf(),
            start <= old(self).position(),
            idx0 == byte_offset(old(self).source(), start as int),
        ensures
            final(self).wf(),
            final(self).source() == old(self).source(),
            final(self).spec_shift() == old(self).spec_shift(),
            final(self).lines() == old(self).lines(),
            final(self).position() == digits_end(old(self).source(), old(self).position()),
            r.0 == idx0,
            r.1@ == SpecToken::I64(
                old(self).source().subrange(
                    start as int,
                    digits_end(old(self).source(), old(self).position()),
                ),
            ),
            r.2 == byte_offset(
                old(self).source(),
                digits_end(old(self).source(), old(self).position()),
            ),
    {
        self.take_digits();
        let text = self.text_since(start);
        let end = self.here();
        (idx0, Token::I64(text), end)
    }

    /// The token of one or two characters that begins with the next
    /// character, at the offset `idx0`: `double` if `second` follows, else
    /// `single`.
    fn one_or_two(&mut self, idx0: usize, second: char, single: Token, double: Token) -> (r:
        Spanned)
        requires
            old(self).wf(),
            old(self).position() < old(self).source().len(),
            idx0 == byte_offset(old(self).source(), old(self).position()),
        ensures
            final(self).wf(),
            final(self).source() == old(self).source(),
            final(self).spec_shift() == old(self).spec_shift(),
            final(self).lines() == old(self).lines(),
            r.0 == idx0,
            r.2 == byte_offset(old(self).source(), final(self).position()),
            if old(self).position() + 1 < old(self).source().len() && old(self).source()[old(
                self,
            ).position() + 1] == second {
                r.1 == double && final(self).position() == old(self).position() + 2
            } else {
                r.1 == single && final(self).position() == old(self).position() + 1
            },
    {
        match self.bump() {
            Some((_, c)) => {
                if c == second {
                    self.bump();
                    let end = self.here();
                    return (idx0, double, end);
                }
            },
            None => {},
        }
        let end = self.here();
        (idx0, single, end)
    }

    /// The token of one character that is the next character, at the offset `idx0`.
    fn one(&mut self, idx0: usize, token: Token) -> (r: Spanned)
        requires
            old(self).wf(),
            old(self).position() < old(self).source().len(),
            idx0 == byte_offset(old(self).source(), old(self).position()),
        ensures
            final(self).wf(),
            final(self).source() == old(self).source(),
            final(self).spec_shift() == old(self).spec_shift(),
            final(self).lines() == old(self).lines(),
            r.0 == idx0,
            r.1 == token,
            r.2 == byte_offset(old(self).source(), final(self).position()),
            final(self).position() == old(self).position() + 1,
    {
        self.bump();
        let end = self.here();
        (idx0, token, end)
    }

    /// The next token with its offsets in the text, the lexical error in
    /// its place, or `None` at the end of the text.
    #[verifier::rlimit(20)]
    fn next_unshifted(&mut self) -> (r: Option<Result<Spanned, Error>>)
        requires
            old(self).wf(),
        ensures
            final(self).wf(),
            final(self).source() == old(self).source(),
            final(self).spec_shift() == old(self).spec_shift(),
            final(self).lines() == lines_after(
                old(self).lines(),
                old(self).source(),
                old(self).position(),
                skip_blanks(old(self).source(), old(self).position()),
            ),
            lexed(old(self).source(), old(self).position(), 0, r, final(self).position()),
    {
        self.skip_blanks();
        let ghost s = self.source();
        let start = self.pos;
        let (idx0, c) = match self.look_ahead() {
            Some(found) => found,
            None => {
                return None;
            },
        };
        // Operators
        if c == '!' {
            Some(Ok(self.one_or_two(idx0, '=', Token::Bang, Token::NotEqual)))
        } else if c == '&' {
            match self.bump() {
                Some((_, d)) => {
                    if d == '&' {
                        self.bump();
                        let end = self.here();
                        Some(Ok((idx0, Token::DoubleAmp, end)))
                    } else {
                        let mut message = String::from_str("Unrecognized token: &");
                        message.push(d);
                        Some(Err(Error { location: idx0, message }))
                    }
                },
                None => Some(
                    Err(
                        Error {
                            location: idx0,
                            message: String::from_str("Unrecognized token: &"),
                        },
                    ),
                ),
            }
        } else if c == '|' {
            match self.bump() {
                Some((_, d)) => {
                    if d == '|' {
                        self.bump();
                        let end = self.here();
                        Some(Ok((idx0, Token::DoubleBars, end)))
                    } else {
                        let mut message = String::from_str("Unrecognized token: |");
                        message.push(d);
                        Some(Err(Error { location: idx0, message }))
                    }
                },
                None => Some(
                    Err(
                        Error {
                            location: idx0,
                            message: String::from_str("Unrecognized token: |"),
                        },
                    ),
                ),
            }
        } else if c == '=' {
            Some(Ok(self.one_or_two(idx0, '=', Token::Equal, Token::DoubleEqual)))
        } else if c == '>' {
            Some(Ok(self.one_or_two(idx0, '=', Token::GreaterThan, Token::GreaterOrEqual)))
        } else if c == '<' {
            Some(Ok(self.one_or_two(idx0, '=', Token::LessThan, Token::LessOrEqual)))
        } else if c == '-' {
            match self.bump() {
                Some((_, d)) => {
                    if char_is_digit(d) {
                        return Some(Ok(self.num(start, idx0)));
                    }
                },
                None => {},
            }
            let end = self.here();
            Some(Ok((idx0, Token::Minus, end)))
        } else if c == '+' {
            Some(Ok(self.one_or_two(idx0, '+', Token::Plus, Token::DoublePlus)))
        } else if c == '"' {
            self.bump();
            Some(self.string_literal(idx0))
        } else if c == '%' {
            Some(Ok(self.one(idx0, Token::Percent)))
        } else if c == '/' {
            Some(Ok(self.one(idx0, Token::Slash)))
        } else if c == '*' {
            Some(Ok(self.one(idx0, Token::Star)))
        } else if c == ',' {
            // Punctuation
            Some(Ok(self.one(idx0, Token::Comma)))
        } else if c == ';' {
            Some(Ok(self.one(idx0, Token::Semicolon)))
        } else if c == '(' {
            Some(Ok(self.one(idx0, Token::LeftParen)))
        } else if c == ')' {
            Some(Ok(self.one(idx0, Token::RightParen)))
        } else if c == '{' {
            Some(Ok(self.one(idx0, Token::LeftBrace)))
        } else if c == '}' {
            Some(Ok(self.one(idx0, Token::RightBrace)))
        } else if c == '[' {
            Some(Ok(self.one(idx0, Token::LeftBracket)))
        } else if c == ']' {
            Some(Ok(self.one(idx0, Token::RightBracket)))
        } else if char_is_digit(c) {
            // Number
            Some(Ok(self.num(start, idx0)))
        } else if is_identifier_start(c) {
            // Words
            self.bump();
            Some(Ok(self.identifierish(start, idx0)))
        } else {
            // Others
            let mut message = String::from_str("Unrecognized token: ");
            message.push(c);
            Some(Err(Error { location: idx0, message }))
        }
    }

    /// The next token with its shifted offsets, the lexical error in its
    /// place, or `None` at the end of the text.
    pub fn next(&mut self) -> (r: Option<Result<Spanned, Error>>)
        requires
            old(self).wf(),
        ensures
            final(self).wf(),
            final(self).source() == old(self).source(),
            final(self).spec_shift() == old(self).spec_shift(),
            final(self).lines() == lines_after(
                old(self).lines(),
                old(self).source(),
                old(self).position(),
                skip_blanks(old(self).source(), old(self).position()),
            ),
            lexed(
                old(self).source(),
                old(self).position(),
                old(self).spec_shift(),
                r,
                final(self).position(),
            ),
    {
        let ghost s = self.source();
        proof {
            lemma_offsets_bounded(s);
        }
        match self.next_unshifted() {
            Some(Ok((l, t, r))) => Some(Ok((l + self.shift, t, r + self.shift))),
            Some(Err(Error { location, message })) => Some(
                Err(Error { location: location + self.shift, message }),
            ),
            None => None,
        }
    }
}

/// Whether `r` is what the tokenizer finds in the text `s` from the place
/// `pos` on, with offsets in bytes that are shifted by `shift`, and `after`
/// is the place at which the tokenizer is left: behind the token that was
/// found, where it goes on after the error, or at the end of the text.
pub open spec fn lexed(
    s: Seq<char>,
    pos: int,
    shift: int,
    r: Option<Result<Spanned, Error>>,
    after: int,
) -> bool {
    match next_token(s, pos) {
        Lexed::End => r is None && after == s.len(),
        Lexed::Token { start, token, end } => r matches Some(Ok((l, t, e))) && l == byte_offset(
            s,
            start,
        ) + shift && t@ == token && e == byte_offset(s, end) + shift && after == end,
        Lexed::Error { location, message, resume } => r matches Some(Err(e)) && e.location
            == byte_offset(s, location) + shift && e.message@ == message && after == resume,
    }
}

/// No offset of a place in the text is beyond the length of the text in bytes.
pub proof fn lemma_offsets_bounded(s: Seq<char>)
    ensures
        forall|i: int| 0 <= i <= s.len() ==> 0 <= #[trigger] byte_offset(s, i) <= encode_utf8(s).len(),
{
    assert forall|i: int| 0 <= i <= s.len() implies 0 <= #[trigger] byte_offset(s, i)
        <= encode_utf8(s).len() by {
        if i < s.len() {
            lemma_byte_offset_step(s, i);
        } else {
            assert(s.skip(i) =~= Seq::<char>::empty());
        }
    }
}

/// Whether the word is the given keyword.
pub fn is(word: &String, keyword: &str) -> (b: bool)
    ensures
        b == (word@ == keyword@),
{
    *word == String::from_str(keyword)
}

/// Whether a token or a lexical error begins with `c`.
fn starts_token_char(c: char) -> (b: bool)
    ensures
        b == starts_token(c),
{
    c == '!' || c == '&' || c == '|' || c == '=' || c == '>' || c == '<' || c == '-' || c == '+'
        || c == '"' || c == '%' || c == '/' || c == '*' || c == ',' || c == ';' || c == '('
        || c == ')' || c == '{' || c == '}' || c == '[' || c == ']' || char_is_digit(c)
        || is_identifier_start(c)
}

} // verus!

verus! {

/// A place that holds no digit lies at or behind where the digits were sought.
pub proof fn lemma_digits_end(s: Seq<char>, i: int)
    requires
        0 <= i <= s.len(),
    ensures
        i <= digits_end(s, i) <= s.len(),
    decreases s.len() - i,
{
    if i < s.len() && is_digit(s[i]) {
        lemma_digits_end(s, i + 1);
    }
}

/// The end of a word lies at or behind where it was sought.
pub proof fn lemma_word_end(s: Seq<char>, i: int)
    requires
        0 <= i <= s.len(),
    ensures
        i <= word_end(s, i) <= s.len(),
    decreases s.len() - i,
{
    if i < s.len() && identifier_continue(s[i]) {
        lemma_word_end(s, i + 1);
    }
}

/// The first place that holds no blank lies at or behind where it was sought.
pub proof fn lemma_skip_blanks(s: Seq<char>, i: int)
    requires
        0 <= i <= s.len(),
    ensures
        i <= skip_blanks(s, i) <= s.len(),
    decreases s.len() - i,
{
    if i < s.len() && is_blank(s[i]) {
        lemma_skip_blanks(s, i + 1);
    }
}

/// The quote that ends a string literal lies in the text, at or behind where
/// it was sought.
pub proof fn lemma_string_end(s: Seq<char>, i: int, escape: bool)
    requires
        0 <= i <= s.len(),
    ensures
        string_end(s, i, escape) matches Some(j) ==> i <= j < s.len() && s[j] == '"',
    decreases s.len() - i,
{
    if i < s.len() {
        lemma_string_end(s, i + 1, false);
        lemma_string_end(s, i + 1, true);
    }
}

/// A token lies in the text, at or behind the place from which it was
/// sought, and is not empty.
pub proof fn lemma_token_advances(s: Seq<char>, pos: int)
    requires
        0 <= pos <= s.len(),
    ensures
        next_token(s, pos) matches Lexed::Token { start, token, end } ==> pos <= start < end
            <= s.len(),
{
    lemma_skip_blanks(s, pos);
    let i = skip_blanks(s, pos);
    if i < s.len() {
        lemma_digits_end(s, i);
        lemma_digits_end(s, i + 1);
        lemma_word_end(s, i + 1);
        lemma_string_end(s, i + 1, false);
        if is_digit(s[i]) {
            assert(digits_end(s, i) == digits_end(s, i + 1));
        }
    }
}

} // verus!
