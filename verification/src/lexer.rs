//! A Lua tokenizer whose tokens carry positions: line, column and byte offset.
//!
//! A token's `start` is the position of its first character and its `end` the
//! position of the last character that belongs to it (for a one-character
//! token, the same as `start`). Lines count the `\n` characters before a
//! position; a column counts the bytes since the last `\n`. What each token
//! is, is given by `lx_scan`, a function of the characters and the index where
//! scanning starts.
//!
//! Unlike a scanner that waits for more input, this one stops at the end of
//! the text inside a long bracket: an opening `[==` or a closing `]==` that
//! the text ends in gives an unterminated string.
pub mod token_validity;
pub mod token_modifier;

use vstd::prelude::*;
use crate::syntax::lexer::{at, is_digit, is_name_char, run_end, lemma_run_end};
use crate::unicode::{
    alphabetic, alphanumeric, byte_length, byte_offset, char_width, is_alphabetic, is_alphanumeric,
    is_ascii_hexdigit, is_numeric, is_whitespace, len_utf8, lemma_byte_offset_mono,
    lemma_encode_len, numeric, spec_is_hex_digit, text_chars, whitespace,
};

verus! {

#[allow(inconsistent_fields)]
#[derive(PartialEq, Eq, Structural, Debug, Clone, Copy)]
pub enum TokenKind {
    Invalid,
    Whitespace,
    Newline,
    Comment { validity: token_validity::Comment, modifier: token_modifier::Comment },
    Identifier,
    String { validity: token_validity::String, modifier: token_modifier::String },
    Number { validity: token_validity::Number, modifier: token_modifier::Number },
    EoF,
    Dot,
    DoubleDot,
    TripleDot,
    LeftBracket,
    RightBracket,
    LeftCurlyBracket,
    RightCurlyBracket,
    LeftSquareBracket,
    RightSquareBracket,
    Minus,
    Plus,
    Asterisk,
    Slash,
    Modulo,
    Semicolon,
    Colon,
    EqualsBoolean,
    NotEqualsBoolean,
    LessThanOrEquals,
    GreaterThanOrEquals,
    LessThan,
    GreaterThan,
    Assign,
    Comma,
    Hash,
    Hat,
}

#[derive(PartialEq, Eq, Structural, Debug, Clone, Copy)]
pub struct Token {
    pub kind: TokenKind,
    pub start: Position,
    pub end: Position,
}

#[derive(PartialEq, Eq, Structural, Debug, Clone, Copy)]
pub struct Position {
    pub line: usize,
    pub column: usize,
    pub absolute: usize,
}

// ---------------------------------------------------------------------------
// Positions
// ---------------------------------------------------------------------------

/// The number of `\n` characters before index `k`.
pub open spec fn line_at(s: Seq<char>, k: int) -> int
    decreases k,
{
    if k <= 0 {
        0
    } else if s[k - 1] == '\n' {
        line_at(s, k - 1) + 1
    } else {
        line_at(s, k - 1)
    }
}

/// The number of bytes between the last `\n` before index `k` (or the start)
/// and index `k`.
pub open spec fn column_at(s: Seq<char>, k: int) -> int
    decreases k,
{
    if k <= 0 {
        0
    } else if s[k - 1] == '\n' {
        0
    } else {
        column_at(s, k - 1) + char_width(s[k - 1])
    }
}

/// The position of character index `k`.
pub open spec fn pos_of(s: Seq<char>, k: int) -> Position {
    Position {
        line: line_at(s, k) as usize,
        column: column_at(s, k) as usize,
        absolute: byte_offset(s, k) as usize,
    }
}

pub proof fn lemma_position_bounds(s: Seq<char>, k: int)
    requires
        0 <= k,
    ensures
        0 <= line_at(s, k) <= k,
        0 <= column_at(s, k) <= byte_offset(s, k),
        0 <= byte_offset(s, k),
    decreases k,
{
    if k > 0 {
        lemma_position_bounds(s, k - 1);
        lemma_byte_offset_mono(s, k - 1, k);
    }
}

// ---------------------------------------------------------------------------
// What a token is. Each scanner takes the characters `s` and gives (kind, end,
// next): the token's kind, the character index whose position is the token's
// end, and the index where the following token starts.
// ---------------------------------------------------------------------------

/// `=`, `<`, `>` and `~` at index `i`: the single character, or with a
/// following `=` the two-character operator.
pub open spec fn lx_two(s: Seq<char>, i: int, single: TokenKind, double: TokenKind) -> (
    TokenKind,
    int,
    int,
) {
    if at(s, i + 1, '=') {
        (double, i + 1, i + 2)
    } else {
        (single, i, i + 1)
    }
}

pub open spec fn number_kind(v: token_validity::Number, m: token_modifier::Number) -> TokenKind {
    TokenKind::Number { validity: v, modifier: m }
}

/// The body of a number from index `k`: alphanumeric characters and dots,
/// which may change the notation or make the literal invalid; `end` is the
/// last character read so far.
pub open spec fn lx_number_rest(
    s: Seq<char>,
    k: int,
    m: token_modifier::Number,
    v: token_validity::Number,
    end: int,
) -> (TokenKind, int, int)
    decreases s.len() - k,
{
    if 0 <= k < s.len() && (alphanumeric(s[k]) || s[k] == '.') {
        let ch = s[k];
        let bad = token_validity::Number::Invalid;
        match m {
            token_modifier::Number::Hex => lx_number_rest(
                s,
                k + 1,
                m,
                if !spec_is_hex_digit(ch) { bad } else { v },
                k,
            ),
            token_modifier::Number::Integer => if ch == '.' {
                lx_number_rest(s, k + 1, token_modifier::Number::Decimal, v, k)
            } else {
                lx_number_rest(s, k + 1, m, if !numeric(ch) { bad } else { v }, k)
            },
            token_modifier::Number::Decimal => if ch == 'E' || ch == 'e' {
                let k2 = if at(s, k + 1, '+') || at(s, k + 1, '-') { k + 2 } else { k + 1 };
                lx_number_rest(s, k2, token_modifier::Number::Exponential, v, k)
            } else {
                lx_number_rest(s, k + 1, m, if !numeric(ch) { bad } else { v }, k)
            },
            token_modifier::Number::Exponential => lx_number_rest(
                s,
                k + 1,
                m,
                if !numeric(ch) { bad } else { v },
                k,
            ),
        }
    } else {
        (number_kind(v, m), end, k)
    }
}

/// A number that starts at index `i` with the character `c`; `k` is the
/// next unread index.
pub open spec fn lx_number(s: Seq<char>, i: int, c: char, k: int) -> (TokenKind, int, int) {
    let valid = token_validity::Number::Valid;
    if c == '0' && at(s, k, 'x') {
        lx_number_rest(s, k + 1, token_modifier::Number::Hex, valid, i)
    } else if c == '.' {
        lx_number_rest(s, k, token_modifier::Number::Decimal, valid, i)
    } else {
        lx_number_rest(s, k, token_modifier::Number::Integer, valid, i)
    }
}

pub open spec fn string_kind(v: token_validity::String, m: token_modifier::String) -> TokenKind {
    TokenKind::String { validity: v, modifier: m }
}

pub open spec fn quote_modifier(term: char) -> token_modifier::String {
    if term == '\'' {
        token_modifier::String::Quotes
    } else {
        token_modifier::String::DoubleQuotes
    }
}

/// The body of a quoted string from index `k`. The terminator ends it even
/// after a backslash; once a backslash was seen, line breaks no longer end it
/// unterminated until the next line break. `last` is the last character that
/// belongs to the string so far.
pub open spec fn lx_quoted(
    s: Seq<char>,
    term: char,
    m: token_modifier::String,
    k: int,
    last: int,
    escaped: bool,
) -> (TokenKind, int, int)
    decreases s.len() - k,
{
    if 0 <= k < s.len() {
        let ch = s[k];
        if ch == term {
            (string_kind(token_validity::String::Valid, m), k, k + 1)
        } else if ch == '\\' {
            lx_quoted(s, term, m, k + 1, last, true)
        } else if (ch == '\n' || ch == '\r') && !escaped {
            (string_kind(token_validity::String::NotTerminated, m), last, k)
        } else {
            lx_quoted(s, term, m, k + 1, k, escaped && ch != '\r' && ch != '\n')
        }
    } else {
        (string_kind(token_validity::String::NotTerminated, m), last, k)
    }
}

/// After a `]` inside a long-bracket string: reads up to `opening` equal signs,
/// and the first other character; stops at the end of the text. Gives the
/// next index and the number of equal signs read.
pub open spec fn lx_closing(s: Seq<char>, k: int, opening: nat, closing: nat) -> (int, nat)
    decreases s.len() - k,
{
    if closing < opening && 0 <= k < s.len() {
        if s[k] == '=' {
            lx_closing(s, k + 1, opening, closing + 1)
        } else {
            (k + 1, closing)
        }
    } else {
        (k, closing)
    }
}

pub proof fn lemma_closing(s: Seq<char>, k: int, opening: nat, closing: nat)
    requires
        0 <= k <= s.len(),
        closing <= opening,
    ensures
        k <= lx_closing(s, k, opening, closing).0 <= s.len(),
        (k < s.len() && closing < opening) ==> lx_closing(s, k, opening, closing).0 > k,
    decreases s.len() - k,
{
    if closing < opening && 0 <= k < s.len() && s[k] == '=' {
        lemma_closing(s, k + 1, opening, closing + 1);
    }
}

/// The contents of a long-bracket string of level `opening`, from index `k`;
/// `end` is the last character read so far.
pub open spec fn lx_long_body(s: Seq<char>, k: int, opening: nat, end: int) -> (
    TokenKind,
    int,
    int,
)
    decreases s.len() - k,
{
    if 0 <= k < s.len() {
        let valid = string_kind(token_validity::String::Valid, token_modifier::String::LongBrackets);
        if s[k] == ']' {
            if opening > 0 {
                let (k2, closing) = lx_closing(s, k + 1, opening, 0);
                if closing == opening && at(s, k2, ']') {
                    (valid, k2, k2 + 1)
                } else {
                    proof {
                        lemma_closing(s, k + 1, opening, 0);
                    }
                    lx_long_body(s, k2, opening, k)
                }
            } else if at(s, k + 1, ']') {
                (valid, k + 1, k + 1)
            } else {
                lx_long_body(s, k + 1, opening, k)
            }
        } else {
            lx_long_body(s, k + 1, opening, k)
        }
    } else {
        (
            string_kind(token_validity::String::NotTerminated, token_modifier::String::LongBrackets),
            end,
            k,
        )
    }
}

/// The equal signs of an opening long bracket, after the first one.
pub open spec fn lx_long_level(s: Seq<char>, start: int, k: int, opening: nat) -> (
    TokenKind,
    int,
    int,
)
    decreases s.len() - k,
{
    if 0 <= k < s.len() {
        if s[k] == '=' {
            lx_long_level(s, start, k + 1, opening + 1)
        } else if s[k] == '[' {
            lx_long_body(s, k, opening, start)
        } else {
            (TokenKind::Invalid, k, k)
        }
    } else {
        lx_long_body(s, k, opening, start)
    }
}

/// A long-bracket string whose `[` is at index `start`, read from index `j`.
/// None when the text ends at `j`.
pub open spec fn lx_long(s: Seq<char>, start: int, j: int) -> Option<(TokenKind, int, int)> {
    if 0 <= j < s.len() {
        if s[j] == '=' {
            Some(lx_long_level(s, start, j + 1, 1))
        } else if s[j] != '[' {
            Some((TokenKind::Invalid, j, j + 1))
        } else {
            Some(lx_long_body(s, j + 1, 0, start))
        }
    } else {
        None
    }
}

/// A one-line comment: everything up to the next line break.
pub open spec fn lx_line_comment(s: Seq<char>, m: int, end: int) -> (TokenKind, int, int)
    decreases s.len() - m,
{
    if 0 <= m < s.len() && s[m] != '\r' && s[m] != '\n' {
        lx_line_comment(s, m + 1, m)
    } else {
        (
            TokenKind::Comment {
                validity: token_validity::Comment::Valid,
                modifier: token_modifier::Comment::Oneline,
            },
            end,
            m,
        )
    }
}

/// `-` at index `i`: minus, or a comment when a second `-` and something
/// after it follow.
pub open spec fn lx_minus(s: Seq<char>, i: int) -> (TokenKind, int, int) {
    let j = i + 1;
    if at(s, j, '-') {
        let k = j + 1;
        if 0 <= k < s.len() {
            if s[k] == '[' {
                match lx_long(s, k, k + 1) {
                    Some((kind, e, nx)) => match kind {
                        TokenKind::String { validity: token_validity::String::NotTerminated, .. } => (
                            TokenKind::Comment {
                                validity: token_validity::Comment::NotTerminated,
                                modifier: token_modifier::Comment::Multiline,
                            },
                            e,
                            nx,
                        ),
                        TokenKind::Invalid => lx_line_comment(s, nx, k),
                        _ => (
                            TokenKind::Comment {
                                validity: token_validity::Comment::Valid,
                                modifier: token_modifier::Comment::Multiline,
                            },
                            e,
                            nx,
                        ),
                    },
                    None => lx_line_comment(s, k + 1, k),
                }
            } else {
                lx_line_comment(s, k, k)
            }
        } else {
            (TokenKind::Minus, i, k)
        }
    } else {
        (TokenKind::Minus, i, j)
    }
}

/// `.` at index `i`: one, two or three dots (the third is only looked at), or
/// a decimal number.
pub open spec fn lx_dot(s: Seq<char>, i: int) -> (TokenKind, int, int) {
    let j = i + 1;
    if at(s, j, '.') {
        if at(s, j + 1, '.') {
            (TokenKind::TripleDot, j + 1, j + 1)
        } else {
            (TokenKind::DoubleDot, j, j + 1)
        }
    } else if 0 <= j < s.len() && is_digit(s[j]) {
        lx_number(s, i, '.', j)
    } else {
        (TokenKind::Dot, i, j)
    }
}

/// `[` at index `i`: a bracket (whose end is the character after it), a
/// long-bracket string when `[` or `=` follows, or a dot at the end of the text.
pub open spec fn lx_open_square(s: Seq<char>, i: int) -> (TokenKind, int, int) {
    let j = i + 1;
    if 0 <= j < s.len() {
        if s[j] == '[' || s[j] == '=' {
            lx_long(s, i, j).unwrap()
        } else {
            (TokenKind::LeftSquareBracket, j, j)
        }
    } else {
        (TokenKind::Dot, i, j)
    }
}

/// A run of characters that satisfy `p` after index `i`: the token ends at the
/// last of them, or at `i`.
pub open spec fn lx_run(s: Seq<char>, i: int, kind: TokenKind, p: spec_fn(char) -> bool) -> (
    TokenKind,
    int,
    int,
) {
    let e = run_end(s, i + 1, p);
    (kind, e - 1, e)
}

pub open spec fn lx_single(kind: TokenKind, i: int) -> (TokenKind, int, int) {
    (kind, i, i + 1)
}

/// The token that starts at character index `i` (which must be in the text).
pub open spec fn lx_scan(s: Seq<char>, i: int) -> (TokenKind, int, int) {
    let c = s[i];
    let j = i + 1;
    if c == '.' {
        lx_dot(s, i)
    } else if c == '(' {
        lx_single(TokenKind::LeftBracket, i)
    } else if c == ')' {
        lx_single(TokenKind::RightBracket, i)
    } else if c == '{' {
        lx_single(TokenKind::LeftCurlyBracket, i)
    } else if c == '}' {
        lx_single(TokenKind::RightCurlyBracket, i)
    } else if c == '[' {
        lx_open_square(s, i)
    } else if c == ']' {
        lx_single(TokenKind::RightSquareBracket, i)
    } else if c == '-' {
        lx_minus(s, i)
    } else if c == '+' {
        lx_single(TokenKind::Plus, i)
    } else if c == '*' {
        lx_single(TokenKind::Asterisk, i)
    } else if c == '/' {
        lx_single(TokenKind::Slash, i)
    } else if c == '%' {
        lx_single(TokenKind::Modulo, i)
    } else if c == ';' {
        lx_single(TokenKind::Semicolon, i)
    } else if c == ':' {
        lx_single(TokenKind::Colon, i)
    } else if c == ',' {
        lx_single(TokenKind::Comma, i)
    } else if c == '=' {
        lx_two(s, i, TokenKind::Assign, TokenKind::EqualsBoolean)
    } else if c == '<' {
        lx_two(s, i, TokenKind::LessThan, TokenKind::LessThanOrEquals)
    } else if c == '>' {
        lx_two(s, i, TokenKind::GreaterThan, TokenKind::GreaterThanOrEquals)
    } else if c == '~' {
        lx_two(s, i, TokenKind::Invalid, TokenKind::NotEqualsBoolean)
    } else if c == '#' {
        lx_single(TokenKind::Hash, i)
    } else if c == '^' {
        lx_single(TokenKind::Hat, i)
    } else if is_digit(c) {
        lx_number(s, i, c, j)
    } else if c == '"' || c == '\'' {
        lx_quoted(s, c, quote_modifier(c), j, i, false)
    } else if c == '\n' {
        lx_single(TokenKind::Newline, i)
    } else if c == '\r' {
        if at(s, j, '\n') {
            (TokenKind::Newline, j, j + 1)
        } else {
            lx_run(s, i, TokenKind::Whitespace, |c: char| whitespace(c))
        }
    } else if alphabetic(c) || c == '_' {
        lx_run(s, i, TokenKind::Identifier, |c: char| is_name_char(c))
    } else if whitespace(c) {
        lx_run(s, i, TokenKind::Whitespace, |c: char| whitespace(c))
    } else {
        lx_single(TokenKind::Invalid, i)
    }
}

/// The token that starts at character index `i`, with its positions.
pub open spec fn lx_token_at(s: Seq<char>, i: int) -> Token {
    let (kind, end, _) = lx_scan(s, i);
    Token { kind, start: pos_of(s, i), end: pos_of(s, end) }
}

/// The index where the token after the one at `i` starts.
pub open spec fn lx_next(s: Seq<char>, i: int) -> int {
    lx_scan(s, i).2
}

/// The tokens read from index `i` to the end of the text.
pub open spec fn lx_tokens_from(s: Seq<char>, i: int) -> Seq<Token>
    decreases s.len() - i,
{
    if 0 <= i < s.len() && i < lx_next(s, i) <= s.len() {
        seq![lx_token_at(s, i)] + lx_tokens_from(s, lx_next(s, i))
    } else {
        Seq::empty()
    }
}

/// The tokens of a whole text, followed by an end-of-file token at the
/// position after the last character.
pub open spec fn lx_tokens(s: Seq<char>) -> Seq<Token> {
    lx_tokens_from(s, 0) + seq![
        Token { kind: TokenKind::EoF, start: pos_of(s, s.len() as int), end: pos_of(s, s.len() as int) },
    ]
}

// ---------------------------------------------------------------------------
// The lexer
// ---------------------------------------------------------------------------

pub struct LuaLexer {
    chars: Vec<char>,
    positions: Vec<Position>,
    idx: usize,
}

/// The positions of every character index of `chars`, and of its end.
fn position_table(chars: &Vec<char>, total: usize) -> (table: Vec<Position>)
    requires
        byte_length(chars@) == total,
    ensures
        table@.len() == chars@.len() + 1,
        forall|k: int| 0 <= k <= chars@.len() ==> #[trigger] table@[k] == pos_of(chars@, k),
{
    let ghost s = chars@;
    let mut table: Vec<Position> = Vec::new();
    let mut line: usize = 0;
    let mut column: usize = 0;
    let mut absolute: usize = 0;
    let mut i: usize = 0;
    table.push(Position { line, column, absolute });
    while i < chars.len()
        invariant
            s == chars@,
            i <= s.len(),
            byte_length(s) == total,
            line == line_at(s, i as int),
            column == column_at(s, i as int),
            absolute == byte_offset(s, i as int),
            table@.len() == i + 1,
            forall|k: int| 0 <= k <= i ==> #[trigger] table@[k] == pos_of(s, k),
        decreases s.len() - i,
    {
        proof {
            lemma_byte_offset_mono(s, i + 1, s.len() as int);
            lemma_position_bounds(s, i + 1);
        }
        let c = chars[i];
        let w = len_utf8(c);
        if c == '\n' {
            line = line + 1;
            column = 0;
        } else {
            column = column + w;
        }
        absolute = absolute + w;
        i = i + 1;
        table.push(Position { line, column, absolute });
    }
    table
}

impl LuaLexer {
    /// The characters of the text.
    pub closed spec fn text(&self) -> Seq<char> {
        self.chars@
    }

    /// The index of the next unread character.
    pub closed spec fn index(&self) -> int {
        self.idx as int
    }

    pub closed spec fn wf(&self) -> bool {
        &&& self.positions@.len() == self.chars@.len() + 1
        &&& forall|k: int|
            0 <= k <= self.chars@.len() ==> #[trigger] self.positions@[k] == pos_of(self.chars@, k)
        &&& self.idx <= self.chars@.len()
        &&& self.chars@.len() < usize::MAX
    }

    pub fn new(text: &str) -> (l: LuaLexer)
        ensures
            l.wf(),
            l.text() == text@,
            l.index() == 0,
    {
        let chars = text_chars(text);
        proof {
            lemma_encode_len(text@);
        }
        let total = text.as_bytes().len();
        let positions = position_table(&chars, total);
        let _ = positions.len();
        LuaLexer { chars, positions, idx: 0 }
    }

    /// Reads every token, followed by an end-of-file token at the position
    /// after the last character.
    pub fn process(&mut self) -> (res: Vec<Token>)
        requires
            old(self).wf(),
        ensures
            final(self).wf(),
            final(self).text() == old(self).text(),
            final(self).index() == old(self).text().len(),
            res@ == lx_tokens_from(old(self).text(), old(self).index()) + seq![
                Token {
                    kind: TokenKind::EoF,
                    start: pos_of(old(self).text(), old(self).text().len() as int),
                    end: pos_of(old(self).text(), old(self).text().len() as int),
                },
            ],
    {
        let mut res: Vec<Token> = Vec::new();
        let ghost s = self.text();
        let ghost i0 = self.index();
        loop
            invariant
                self.wf(),
                self.text() == s,
                lx_tokens_from(s, i0) == res@ + lx_tokens_from(s, self.index()),
                s == old(self).text(),
                i0 == old(self).index(),
            decreases s.len() - self.index(),
        {
            let ghost before = self.index();
            let token = self.next_token();
            match token {
                Some(t) => {
                    proof {
                        assert(lx_tokens_from(s, before) == seq![t] + lx_tokens_from(s, self.index()));
                    }
                    res.push(t);
                    assert(res@ + lx_tokens_from(s, self.index()) =~= lx_tokens_from(s, i0));
                },
                None => {
                    let end = self.positions[self.idx];
                    res.push(Token { kind: TokenKind::EoF, start: end, end });
                    assert(lx_tokens_from(s, self.index()) =~= Seq::<Token>::empty());
                    assert(res@ =~= lx_tokens_from(s, i0) + seq![
                        Token {
                            kind: TokenKind::EoF,
                            start: pos_of(s, s.len() as int),
                            end: pos_of(s, s.len() as int),
                        },
                    ]);
                    return res;
                },
            }
        }
    }

    /// What looking at the next character shows: its position and the
    /// character, or nothing at the end of the text.
    pub open spec fn spec_peek_char(&self) -> Option<(Position, char)> {
        if 0 <= self.index() < self.text().len() {
            Some((pos_of(self.text(), self.index()), self.text()[self.index()]))
        } else {
            None
        }
    }

    /// What reading the next character gives, and the index after it: one
    /// further on, or unchanged at the end of the text.
    pub open spec fn spec_next_char(&self) -> (Option<(Position, char)>, int) {
        if self.index() < self.text().len() {
            (self.spec_peek_char(), self.index() + 1)
        } else {
            (None, self.index())
        }
    }

    /// Reads the next character: its position and the character.
    fn next_char(&mut self) -> (r: Option<(Position, char)>)
        requires
            old(self).wf(),
        ensures
            final(self).wf(),
            final(self).text() == old(self).text(),
            (r, final(self).index()) == old(self).spec_next_char(),
            old(self).index() < old(self).text().len() ==> r == Some(
                (pos_of(old(self).text(), old(self).index()), old(self).text()[old(self).index()]),
            ) && final(self).index() == old(self).index() + 1,
            old(self).index() >= old(self).text().len() ==> r is None && final(self).index()
                == old(self).index(),
    {
        let r = self.peek_char();
        if self.idx < self.chars.len() {
            self.idx = self.idx + 1;
        }
        r
    }

    /// The next character, if any, without reading it.
    fn peek_char(&self) -> (r: Option<(Position, char)>)
        requires
            self.wf(),
        ensures
            r == self.spec_peek_char(),
            self.index() < self.text().len() ==> r == Some(
                (pos_of(self.text(), self.index()), self.text()[self.index()]),
            ),
            self.index() >= self.text().len() ==> r is None,
    {
        if self.idx < self.chars.len() {
            Some((self.positions[self.idx], self.chars[self.idx]))
        } else {
            None
        }
    }

    /// The position of character index `k`.
    fn pos(&self, k: usize) -> (p: Position)
        requires
            self.wf(),
            k <= self.text().len(),
        ensures
            p == pos_of(self.text(), k as int),
    {
        self.positions[k]
    }

    fn is_at(&self, k: usize, c: char) -> (r: bool)
        ensures
            r == at(self.text(), k as int, c),
    {
        k < self.chars.len() && self.chars[k] == c
    }

    /// Reads the next token: the one that `lx_scan` gives at the current
    /// index, or None at the end of the text.
    pub fn next_token(&mut self) -> (r: Option<Token>)
        requires
            old(self).wf(),
        ensures
            final(self).wf(),
            final(self).text() == old(self).text(),
            old(self).index() < old(self).text().len() ==> r == Some(
                lx_token_at(old(self).text(), old(self).index()),
            ) && final(self).index() == lx_next(old(self).text(), old(self).index())
                && old(self).index() < final(self).index() <= old(self).text().len(),
            old(self).index() >= old(self).text().len() ==> r is None && final(self).index()
                == old(self).index(),
    {
        let ghost s = self.text();
        let i = self.idx;
        if i >= self.chars.len() {
            return None;
        }
        proof {
            lemma_scan_bounds(s, i as int);
        }
        let ch = self.chars[i];
        self.idx = i + 1;
        let (kind, end): (TokenKind, usize) = if ch == '.' {
            self.scan_dot(i)
        } else if ch == '(' {
            (TokenKind::LeftBracket, i)
        } else if ch == ')' {
            (TokenKind::RightBracket, i)
        } else if ch == '{' {
            (TokenKind::LeftCurlyBracket, i)
        } else if ch == '}' {
            (TokenKind::RightCurlyBracket, i)
        } else if ch == '[' {
            self.scan_open_square_bracket(i)
        } else if ch == ']' {
            (TokenKind::RightSquareBracket, i)
        } else if ch == '-' {
            self.scan_minus(i)
        } else if ch == '+' {
            (TokenKind::Plus, i)
        } else if ch == '*' {
            (TokenKind::Asterisk, i)
        } else if ch == '/' {
            (TokenKind::Slash, i)
        } else if ch == '%' {
            (TokenKind::Modulo, i)
        } else if ch == ';' {
            (TokenKind::Semicolon, i)
        } else if ch == ':' {
            (TokenKind::Colon, i)
        } else if ch == ',' {
            (TokenKind::Comma, i)
        } else if ch == '=' {
            self.scan_equals(i)
        } else if ch == '<' {
            self.scan_less_than(i)
        } else if ch == '>' {
            self.scan_greater_than(i)
        } else if ch == '~' {
            self.scan_tilde(i)
        } else if ch == '#' {
            (TokenKind::Hash, i)
        } else if ch == '^' {
            (TokenKind::Hat, i)
        } else if '0' <= ch && ch <= '9' {
            self.scan_number(i, ch)
        } else if ch == '"' || ch == '\'' {
            self.scan_simple_string(i, ch)
        } else if ch == '\n' {
            (TokenKind::Newline, i)
        } else if ch == '\r' {
            if self.is_at(i + 1, '\n') {
                self.idx = i + 2;
                (TokenKind::Newline, i + 1)
            } else {
                self.scan_whitespace(i)
            }
        } else if is_alphabetic(ch) || ch == '_' {
            self.scan_identifier(i)
        } else if is_whitespace(ch) {
            self.scan_whitespace(i)
        } else {
            (TokenKind::Invalid, i)
        };
        Some(Token { kind, start: self.pos(i), end: self.pos(end) })
    }

    fn scan_two(&mut self, start: usize, single: TokenKind, double: TokenKind) -> (r: (
        TokenKind,
        usize,
    ))
        requires
            old(self).wf(),
            old(self).index() == start + 1,
            start < old(self).text().len(),
        ensures
            final(self).wf(),
            final(self).text() == old(self).text(),
            (r.0, r.1 as int, final(self).index()) == lx_two(
                old(self).text(),
                start as int,
                single,
                double,
            ),
    {
        if self.is_at(start + 1, '=') {
            self.idx = start + 2;
            (double, start + 1)
        } else {
            (single, start)
        }
    }

    fn scan_equals(&mut self, start: usize) -> (r: (TokenKind, usize))
        requires
            old(self).wf(),
            old(self).index() == start + 1,
            start < old(self).text().len(),
        ensures
            final(self).wf(),
            final(self).text() == old(self).text(),
            (r.0, r.1 as int, final(self).index()) == lx_two(
                old(self).text(),
                start as int,
                TokenKind::Assign,
                TokenKind::EqualsBoolean,
            ),
    {
        self.scan_two(start, TokenKind::Assign, TokenKind::EqualsBoolean)
    }

    fn scan_less_than(&mut self, start: usize) -> (r: (TokenKind, usize))
        requires
            old(self).wf(),
            old(self).index() == start + 1,
            start < old(self).text().len(),
        ensures
            final(self).wf(),
            final(self).text() == old(self).text(),
            (r.0, r.1 as int, final(self).index()) == lx_two(
                old(self).text(),
                start as int,
                TokenKind::LessThan,
                TokenKind::LessThanOrEquals,
            ),
    {
        self.scan_two(start, TokenKind::LessThan, TokenKind::LessThanOrEquals)
    }

    fn scan_greater_than(&mut self, start: usize) -> (r: (TokenKind, usize))
        requires
            old(self).wf(),
            old(self).index() == start + 1,
            start < old(self).text().len(),
        ensures
            final(self).wf(),
            final(self).text() == old(self).text(),
            (r.0, r.1 as int, final(self).index()) == lx_two(
                old(self).text(),
                start as int,
                TokenKind::GreaterThan,
                TokenKind::GreaterThanOrEquals,
            ),
    {
        self.scan_two(start, TokenKind::GreaterThan, TokenKind::GreaterThanOrEquals)
    }

    fn scan_tilde(&mut self, start: usize) -> (r: (TokenKind, usize))
        requires
            old(self).wf(),
            old(self).index() == start + 1,
            start < old(self).text().len(),
        ensures
            final(self).wf(),
            final(self).text() == old(self).text(),
            (r.0, r.1 as int, final(self).index()) == lx_two(
                old(self).text(),
                start as int,
                TokenKind::Invalid,
                TokenKind::NotEqualsBoolean,
            ),
    {
        self.scan_two(start, TokenKind::Invalid, TokenKind::NotEqualsBoolean)
    }

    /// Whitespace after the character at `start`.
    fn scan_whitespace(&mut self, start: usize) -> (r: (TokenKind, usize))
        requires
            old(self).wf(),
            old(self).index() == start + 1,
            start < old(self).text().len(),
        ensures
            final(self).wf(),
            final(self).text() == old(self).text(),
            (r.0, r.1 as int, final(self).index()) == lx_run(
                old(self).text(),
                start as int,
                TokenKind::Whitespace,
                |c: char| whitespace(c),
            ),
    {
        let ghost s = self.text();
        let ghost target = run_end(s, self.index(), |c: char| whitespace(c));
        let mut end = start;
        while self.idx < self.chars.len() && is_whitespace(self.chars[self.idx])
            invariant
                self.wf(),
                self.text() == s,
                start < self.index() <= s.len(),
                end == self.index() - 1,
                run_end(s, self.index(), |c: char| whitespace(c)) == target,
            decreases s.len() - self.index(),
        {
            end = self.idx;
            self.idx = self.idx + 1;
        }
        (TokenKind::Whitespace, end)
    }

    /// A name after the character at `start`.
    fn scan_identifier(&mut self, start: usize) -> (r: (TokenKind, usize))
        requires
            old(self).wf(),
            old(self).index() == start + 1,
            start < old(self).text().len(),
        ensures
            final(self).wf(),
            final(self).text() == old(self).text(),
            (r.0, r.1 as int, final(self).index()) == lx_run(
                old(self).text(),
                start as int,
                TokenKind::Identifier,
                |c: char| is_name_char(c),
            ),
    {
        let ghost s = self.text();
        let ghost target = run_end(s, self.index(), |c: char| is_name_char(c));
        let mut end = start;
        while self.idx < self.chars.len() && (is_alphanumeric(self.chars[self.idx])
            || self.chars[self.idx] == '_')
            invariant
                self.wf(),
                self.text() == s,
                start < self.index() <= s.len(),
                end == self.index() - 1,
                run_end(s, self.index(), |c: char| is_name_char(c)) == target,
            decreases s.len() - self.index(),
        {
            end = self.idx;
            self.idx = self.idx + 1;
        }
        (TokenKind::Identifier, end)
    }

    fn scan_dot(&mut self, start: usize) -> (r: (TokenKind, usize))
        requires
            old(self).wf(),
            old(self).index() == start + 1,
            start < old(self).text().len(),
        ensures
            final(self).wf(),
            final(self).text() == old(self).text(),
            (r.0, r.1 as int, final(self).index()) == lx_dot(old(self).text(), start as int),
    {
        let j = start + 1;
        if self.is_at(j, '.') {
            self.idx = j + 1;
            if self.is_at(j + 1, '.') {
                return (TokenKind::TripleDot, j + 1);
            }
            return (TokenKind::DoubleDot, j);
        }
        if j < self.chars.len() && '0' <= self.chars[j] && self.chars[j] <= '9' {
            return self.scan_number(start, '.');
        }
        (TokenKind::Dot, start)
    }

    fn scan_open_square_bracket(&mut self, start: usize) -> (r: (TokenKind, usize))
        requires
            old(self).wf(),
            old(self).index() == start + 1,
            start < old(self).text().len(),
        ensures
            final(self).wf(),
            final(self).text() == old(self).text(),
            (r.0, r.1 as int, final(self).index()) == lx_open_square(old(self).text(), start as int),
    {
        let j = start + 1;
        if j < self.chars.len() {
            if self.chars[j] == '[' || self.chars[j] == '=' {
                match self.scan_long_bracket_string(start) {
                    Some(t) => t,
                    None => (TokenKind::Invalid, j),
                }
            } else {
                (TokenKind::LeftSquareBracket, j)
            }
        } else {
            (TokenKind::Dot, start)
        }
    }

    /// A long-bracket string whose `[` is at character index `start`; the next
    /// character is read here. None when the text ends before it.
    fn scan_long_bracket_string(&mut self, start: usize) -> (r: Option<(TokenKind, usize)>)
        requires
            old(self).wf(),
            start < old(self).index() <= old(self).text().len(),
        ensures
            final(self).wf(),
            final(self).text() == old(self).text(),
            match lx_long(old(self).text(), start as int, old(self).index()) {
                Some(v) => r matches Some(t) && (t.0, t.1 as int, final(self).index()) == v,
                None => r is None && final(self).index() == old(self).index(),
            },
            old(self).index() <= final(self).index() <= old(self).text().len(),
    {
        proof {
            lemma_long(old(self).text(), start as int, old(self).index());
        }
        let ghost s = self.text();
        let j = self.idx;
        if j >= self.chars.len() {
            return None;
        }
        let ch = self.chars[j];
        self.idx = j + 1;
        let mut opening: usize = 0;
        if ch == '=' {
            opening = 1;
            let ghost target = lx_long_level(s, start as int, j + 1, 1);
            while self.idx < self.chars.len()
                invariant
                    self.wf(),
                    self.text() == s,
                    s == old(self).text(),
                    j == old(self).index(),
                    j < s.len(),
                    s[j as int] == '=',
                    target == lx_long_level(s, start as int, j + 1, 1),
                    j < self.index() <= s.len(),
                    1 <= opening <= self.index() - j,
                    lx_long_level(s, start as int, self.index(), opening as nat) == target,
                ensures
                    self.index() < s.len() ==> s[self.index()] == '[',
                    j < self.index() <= s.len(),
                    1 <= opening <= self.index() - j,
                    lx_long_level(s, start as int, self.index(), opening as nat) == target,
                decreases s.len() - self.index(),
            {
                let c = self.chars[self.idx];
                if c == '=' {
                    opening = opening + 1;
                } else if c == '[' {
                    break;
                } else {
                    return Some((TokenKind::Invalid, self.idx));
                }
                self.idx = self.idx + 1;
            }
            return Some(self.scan_long_body(start, opening));
        } else if ch != '[' {
            return Some((TokenKind::Invalid, j));
        }
        Some(self.scan_long_body(start, opening))
    }

    /// The contents of a long-bracket string of level `opening`.
    fn scan_long_body(&mut self, start: usize, opening: usize) -> (r: (TokenKind, usize))
        requires
            old(self).wf(),
            start < old(self).index() <= old(self).text().len(),
        ensures
            final(self).wf(),
            final(self).text() == old(self).text(),
            (r.0, r.1 as int, final(self).index()) == lx_long_body(
                old(self).text(),
                old(self).index(),
                opening as nat,
                start as int,
            ),
    {
        let ghost s = self.text();
        let ghost target = lx_long_body(s, self.index(), opening as nat, start as int);
        let mut end: usize = start;
        while self.idx < self.chars.len()
            invariant
                self.wf(),
                self.text() == s,
                s == old(self).text(),
                target == lx_long_body(s, old(self).index(), opening as nat, start as int),
                old(self).index() <= self.index(),
                end < self.index() <= s.len(),
                lx_long_body(s, self.index(), opening as nat, end as int) == target,
            decreases s.len() - self.index(),
        {
            let k = self.idx;
            let c = self.chars[k];
            self.idx = k + 1;
            end = k;
            if c == ']' {
                if opening > 0 {
                    let mut closing: usize = 0;
                    let ghost inner = lx_closing(s, k + 1, opening as nat, 0);
                    while closing < opening && self.idx < self.chars.len()
                        invariant_except_break
                            lx_closing(s, self.index(), opening as nat, closing as nat) == inner,
                        invariant
                            self.wf(),
                            self.text() == s,
                            k + 1 <= self.index() <= s.len(),
                            closing <= opening,
                        ensures
                            (self.index(), closing as nat) == inner,
                        decreases s.len() - self.index(),
                    {
                        let c2 = self.chars[self.idx];
                        self.idx = self.idx + 1;
                        if c2 == '=' {
                            closing = closing + 1;
                        } else {
                            break;
                        }
                    }
                    if closing == opening && self.is_at(self.idx, ']') {
                        let e = self.idx;
                        self.idx = e + 1;
                        return (
                            TokenKind::String {
                                validity: token_validity::String::Valid,
                                modifier: token_modifier::String::LongBrackets,
                            },
                            e,
                        );
                    }
                } else if self.is_at(k + 1, ']') {
                    return (
                        TokenKind::String {
                            validity: token_validity::String::Valid,
                            modifier: token_modifier::String::LongBrackets,
                        },
                        k + 1,
                    );
                }
            }
        }
        (
            TokenKind::String {
                validity: token_validity::String::NotTerminated,
                modifier: token_modifier::String::LongBrackets,
            },
            end,
        )
    }

    fn scan_minus(&mut self, start: usize) -> (r: (TokenKind, usize))
        requires
            old(self).wf(),
            old(self).index() == start + 1,
            start < old(self).text().len(),
        ensures
            final(self).wf(),
            final(self).text() == old(self).text(),
            (r.0, r.1 as int, final(self).index()) == lx_minus(old(self).text(), start as int),
    {
        let j = start + 1;
        if self.is_at(j, '-') {
            self.idx = j + 1;
            let k = j + 1;
            if k < self.chars.len() {
                if self.chars[k] == '[' {
                    self.idx = k + 1;
                    let multiline = self.scan_long_bracket_string(k);
                    if let Some(t) = multiline {
                        match t.0 {
                            TokenKind::String {
                                validity: token_validity::String::NotTerminated,
                                modifier: _,
                            } => {
                                return (
                                    TokenKind::Comment {
                                        validity: token_validity::Comment::NotTerminated,
                                        modifier: token_modifier::Comment::Multiline,
                                    },
                                    t.1,
                                );
                            },
                            TokenKind::Invalid => {},
                            _ => {
                                return (
                                    TokenKind::Comment {
                                        validity: token_validity::Comment::Valid,
                                        modifier: token_modifier::Comment::Multiline,
                                    },
                                    t.1,
                                );
                            },
                        }
                    }
                }
                return self.scan_line_comment(k);
            }
            return (TokenKind::Minus, start);
        }
        (TokenKind::Minus, start)
    }

    /// The rest of a one-line comment; `end0` is its last character so far.
    fn scan_line_comment(&mut self, end0: usize) -> (r: (TokenKind, usize))
        requires
            old(self).wf(),
            end0 <= old(self).index(),
        ensures
            final(self).wf(),
            final(self).text() == old(self).text(),
            (r.0, r.1 as int, final(self).index()) == lx_line_comment(
                old(self).text(),
                old(self).index(),
                end0 as int,
            ),
    {
        let ghost s = self.text();
        let ghost target = lx_line_comment(s, self.index(), end0 as int);
        let mut end = end0;
        while self.idx < self.chars.len() && self.chars[self.idx] != '\r' && self.chars[self.idx]
            != '\n'
            invariant
                self.wf(),
                self.text() == s,
                end <= self.index(),
                lx_line_comment(s, self.index(), end as int) == target,
            decreases s.len() - self.index(),
        {
            end = self.idx;
            self.idx = self.idx + 1;
        }
        (
            TokenKind::Comment {
                validity: token_validity::Comment::Valid,
                modifier: token_modifier::Comment::Oneline,
            },
            end,
        )
    }

    /// A number that starts at `start` with the character `ch`.
    fn scan_number(&mut self, start: usize, ch: char) -> (r: (TokenKind, usize))
        requires
            old(self).wf(),
            start < old(self).index() <= old(self).text().len(),
        ensures
            final(self).wf(),
            final(self).text() == old(self).text(),
            (r.0, r.1 as int, final(self).index()) == lx_number(
                old(self).text(),
                start as int,
                ch,
                old(self).index(),
            ),
    {
        let ghost s = self.text();
        let mut modifier = token_modifier::Number::Integer;
        let mut validity = token_validity::Number::Valid;
        if ch == '0' && self.is_at(self.idx, 'x') {
            self.idx = self.idx + 1;
            modifier = token_modifier::Number::Hex;
        } else if ch == '.' {
            modifier = token_modifier::Number::Decimal;
        }
        let ghost target = lx_number_rest(s, self.index(), modifier, validity, start as int);
        let mut end = start;
        while self.idx < self.chars.len() && (is_alphanumeric(self.chars[self.idx])
            || self.chars[self.idx] == '.')
            invariant
                self.wf(),
                self.text() == s,
                end < self.index(),
                lx_number_rest(s, self.index(), modifier, validity, end as int) == target,
            decreases s.len() - self.index(),
        {
            let c = self.chars[self.idx];
            end = self.idx;
            self.idx = self.idx + 1;
            match modifier {
                token_modifier::Number::Hex => {
                    if !is_ascii_hexdigit(c) {
                        validity = token_validity::Number::Invalid;
                    }
                },
                token_modifier::Number::Integer => {
                    if c == '.' {
                        modifier = token_modifier::Number::Decimal;
                    } else if !is_numeric(c) {
                        validity = token_validity::Number::Invalid;
                    }
                },
                token_modifier::Number::Decimal => {
                    if c == 'E' || c == 'e' {
                        modifier = token_modifier::Number::Exponential;
                        if self.is_at(self.idx, '+') || self.is_at(self.idx, '-') {
                            self.idx = self.idx + 1;
                        }
                    } else if !is_numeric(c) {
                        validity = token_validity::Number::Invalid;
                    }
                },
                token_modifier::Number::Exponential => {
                    if !is_numeric(c) {
                        validity = token_validity::Number::Invalid;
                    }
                },
            }
        }
        (TokenKind::Number { validity, modifier }, end)
    }

    /// A quoted string whose opening quote `terminator` is at `start`.
    fn scan_simple_string(&mut self, start: usize, terminator: char) -> (r: (TokenKind, usize))
        requires
            old(self).wf(),
            old(self).index() == start + 1,
            start < old(self).text().len(),
        ensures
            final(self).wf(),
            final(self).text() == old(self).text(),
            (r.0, r.1 as int, final(self).index()) == lx_quoted(
                old(self).text(),
                terminator,
                quote_modifier(terminator),
                start + 1,
                start as int,
                false,
            ),
    {
        let ghost s = self.text();
        let modifier = if terminator == '\'' {
            token_modifier::String::Quotes
        } else {
            token_modifier::String::DoubleQuotes
        };
        let mut seen_escape = false;
        let mut last_stable_pos: usize = start;
        let ghost target = lx_quoted(s, terminator, modifier, self.index(), start as int, false);
        while self.idx < self.chars.len()
            invariant
                self.wf(),
                self.text() == s,
                s == old(self).text(),
                modifier == quote_modifier(terminator),
                target == lx_quoted(s, terminator, modifier, start + 1, start as int, false),
                old(self).index() == start + 1,
                last_stable_pos < self.index(),
                lx_quoted(s, terminator, modifier, self.index(), last_stable_pos as int, seen_escape)
                    == target,
            decreases s.len() - self.index(),
        {
            let k = self.idx;
            let c = self.chars[k];
            if c == terminator {
                self.idx = k + 1;
                return (TokenKind::String { validity: token_validity::String::Valid, modifier }, k);
            } else if c == '\\' {
                seen_escape = true;
            } else if (c == '\n' || c == '\r') && !seen_escape {
                return (
                    TokenKind::String { validity: token_validity::String::NotTerminated, modifier },
                    last_stable_pos,
                );
            } else {
                seen_escape = seen_escape && c != '\r' && c != '\n';
                last_stable_pos = k;
            }
            self.idx = k + 1;
        }
        (
            TokenKind::String { validity: token_validity::String::NotTerminated, modifier },
            last_stable_pos,
        )
    }
}

pub open spec fn within(r: (TokenKind, int, int), lo: int, elo: int, n: int) -> bool {
    lo <= r.2 <= n && elo <= r.1 <= n
}

/// Every scanner reads at least one character and stays within the text.
pub proof fn lemma_scan_bounds(s: Seq<char>, i: int)
    requires
        0 <= i < s.len(),
    ensures
        within(lx_scan(s, i), i + 1, i, s.len() as int),
{
    let c = s[i];
    let j = i + 1;
    if c == '.' {
        if 0 <= j < s.len() && is_digit(s[j]) && !at(s, j, '.') {
            lemma_number_rest(s, j, token_modifier::Number::Decimal, token_validity::Number::Valid, i, i);
        }
    } else if c == '[' {
        if 0 <= j < s.len() && (s[j] == '[' || s[j] == '=') {
            lemma_long(s, i, j);
        }
    } else if c == '-' {
        if at(s, j, '-') {
            let k = j + 1;
            if 0 <= k < s.len() {
                if s[k] == '[' {
                    lemma_long(s, k, k + 1);
                    match lx_long(s, k, k + 1) {
                        Some((kind, e, nx)) => {
                            lemma_line_comment(s, nx, k);
                        },
                        None => {
                            lemma_line_comment(s, k + 1, k);
                        },
                    }
                } else {
                    lemma_line_comment(s, k, k);
                }
            }
        }
    } else if is_digit(c) {
        let valid = token_validity::Number::Valid;
        if c == '0' && at(s, j, 'x') {
            lemma_number_rest(s, j + 1, token_modifier::Number::Hex, valid, i, i);
        } else {
            lemma_number_rest(s, j, token_modifier::Number::Integer, valid, i, i);
        }
    } else if c == '"' || c == '\'' {
        lemma_quoted(s, c, quote_modifier(c), j, i, false, i);
    } else if c == '\r' {
        lemma_run_end(s, j, |c: char| whitespace(c));
    } else if alphabetic(c) || c == '_' {
        lemma_run_end(s, j, |c: char| is_name_char(c));
    } else if whitespace(c) {
        lemma_run_end(s, j, |c: char| whitespace(c));
    }
}

pub proof fn lemma_number_rest(
    s: Seq<char>,
    k: int,
    m: token_modifier::Number,
    v: token_validity::Number,
    end: int,
    elo: int,
)
    requires
        0 <= k <= s.len(),
        elo <= end < k,
    ensures
        within(lx_number_rest(s, k, m, v, end), k, elo, s.len() as int),
    decreases s.len() - k,
{
    if 0 <= k < s.len() && (alphanumeric(s[k]) || s[k] == '.') {
        let ch = s[k];
        let bad = token_validity::Number::Invalid;
        match m {
            token_modifier::Number::Hex => lemma_number_rest(
                s,
                k + 1,
                m,
                if !spec_is_hex_digit(ch) { bad } else { v },
                k,
                elo,
            ),
            token_modifier::Number::Integer => if ch == '.' {
                lemma_number_rest(s, k + 1, token_modifier::Number::Decimal, v, k, elo)
            } else {
                lemma_number_rest(s, k + 1, m, if !numeric(ch) { bad } else { v }, k, elo)
            },
            token_modifier::Number::Decimal => if ch == 'E' || ch == 'e' {
                let k2 = if at(s, k + 1, '+') || at(s, k + 1, '-') { k + 2 } else { k + 1 };
                lemma_number_rest(s, k2, token_modifier::Number::Exponential, v, k, elo)
            } else {
                lemma_number_rest(s, k + 1, m, if !numeric(ch) { bad } else { v }, k, elo)
            },
            token_modifier::Number::Exponential => lemma_number_rest(
                s,
                k + 1,
                m,
                if !numeric(ch) { bad } else { v },
                k,
                elo,
            ),
        }
    }
}

pub proof fn lemma_quoted(
    s: Seq<char>,
    term: char,
    m: token_modifier::String,
    k: int,
    last: int,
    escaped: bool,
    elo: int,
)
    requires
        0 <= k <= s.len(),
        elo <= last < k,
    ensures
        within(lx_quoted(s, term, m, k, last, escaped), k, elo, s.len() as int),
    decreases s.len() - k,
{
    if 0 <= k < s.len() {
        let ch = s[k];
        if ch == term {
        } else if ch == '\\' {
            lemma_quoted(s, term, m, k + 1, last, true, elo);
        } else if (ch == '\n' || ch == '\r') && !escaped {
        } else {
            lemma_quoted(s, term, m, k + 1, k, escaped && ch != '\r' && ch != '\n', elo);
        }
    }
}

pub proof fn lemma_long_body(s: Seq<char>, k: int, opening: nat, end: int, elo: int)
    requires
        0 <= k <= s.len(),
        elo <= end < k,
    ensures
        within(lx_long_body(s, k, opening, end), k, elo, s.len() as int),
    decreases s.len() - k,
{
    if 0 <= k < s.len() {
        if s[k] == ']' {
            if opening > 0 {
                lemma_closing(s, k + 1, opening, 0);
                let (k2, closing) = lx_closing(s, k + 1, opening, 0);
                if closing == opening && at(s, k2, ']') {
                } else {
                    lemma_long_body(s, k2, opening, k, elo);
                }
            } else if at(s, k + 1, ']') {
            } else {
                lemma_long_body(s, k + 1, opening, k, elo);
            }
        } else {
            lemma_long_body(s, k + 1, opening, k, elo);
        }
    }
}

pub proof fn lemma_long_level(s: Seq<char>, start: int, k: int, opening: nat)
    requires
        0 <= start < k <= s.len(),
    ensures
        within(lx_long_level(s, start, k, opening), k, start, s.len() as int),
    decreases s.len() - k,
{
    if 0 <= k < s.len() {
        if s[k] == '=' {
            lemma_long_level(s, start, k + 1, opening + 1);
        } else if s[k] == '[' {
            lemma_long_body(s, k, opening, start, start);
        }
    } else {
        lemma_long_body(s, k, opening, start, start);
    }
}

pub proof fn lemma_long(s: Seq<char>, start: int, j: int)
    requires
        0 <= start < j <= s.len(),
    ensures
        lx_long(s, start, j) matches Some(r) ==> within(r, j, start, s.len() as int),
{
    if 0 <= j < s.len() {
        if s[j] == '=' {
            lemma_long_level(s, start, j + 1, 1);
        } else if s[j] != '[' {
        } else {
            lemma_long_body(s, j + 1, 0, start, start);
        }
    }
}

pub proof fn lemma_line_comment(s: Seq<char>, m: int, end: int)
    requires
        0 <= end <= m <= s.len(),
    ensures
        within(lx_line_comment(s, m, end), m, end, s.len() as int),
    decreases s.len() - m,
{
    if 0 <= m < s.len() && s[m] != '\r' && s[m] != '\n' {
        lemma_line_comment(s, m + 1, m);
    }
}

/// The tokens of a text come in order: each starts after the one before,
/// ends at or after its start, and lies within the text.
pub proof fn law_tokens_in_order(s: Seq<char>)
    requires
        byte_length(s) <= usize::MAX,
    ensures
        forall|a: int, b: int|
            0 <= a < b < lx_tokens_from(s, 0).len() ==> (#[trigger] lx_tokens_from(s, 0)[a]).start.absolute
                < (#[trigger] lx_tokens_from(s, 0)[b]).start.absolute,
        forall|a: int|
            0 <= a < lx_tokens_from(s, 0).len() ==> (#[trigger] lx_tokens_from(s, 0)[a]).start.absolute
                <= lx_tokens_from(s, 0)[a].end.absolute <= byte_length(s),
{
    lemma_tokens_from_order(s, 0);
}

proof fn lemma_tokens_from_order(s: Seq<char>, i: int)
    requires
        0 <= i <= s.len(),
        byte_length(s) <= usize::MAX,
    ensures
        forall|a: int|
            0 <= a < lx_tokens_from(s, i).len() ==> byte_offset(s, i) <= (
            #[trigger] lx_tokens_from(s, i)[a]).start.absolute,
        forall|a: int, b: int|
            0 <= a < b < lx_tokens_from(s, i).len() ==> (#[trigger] lx_tokens_from(s, i)[a]).start.absolute
                < (#[trigger] lx_tokens_from(s, i)[b]).start.absolute,
        forall|a: int|
            0 <= a < lx_tokens_from(s, i).len() ==> (#[trigger] lx_tokens_from(s, i)[a]).start.absolute
                <= lx_tokens_from(s, i)[a].end.absolute <= byte_length(s),
    decreases s.len() - i,
{
    let toks = lx_tokens_from(s, i);
    if 0 <= i < s.len() && i < lx_next(s, i) <= s.len() {
        let n = lx_next(s, i);
        lemma_tokens_from_order(s, n);
        lemma_scan_bounds(s, i);
        let e = lx_scan(s, i).1;
        let rest = lx_tokens_from(s, n);
        lemma_byte_offset_mono(s, i, n);
        lemma_byte_offset_mono(s, i, e);
        lemma_byte_offset_mono(s, e, s.len() as int);
        lemma_byte_offset_mono(s, n, s.len() as int);
        lemma_byte_offset_mono(s, 0, i);
        assert(toks == seq![lx_token_at(s, i)] + rest);
        assert(toks[0].start.absolute == byte_offset(s, i));
        assert(toks[0].end.absolute == byte_offset(s, e));
        assert forall|a: int| 0 <= a < toks.len() implies byte_offset(s, i) <= (#[trigger] toks[a]).start.absolute by {
            if a > 0 {
                assert(toks[a] == rest[a - 1]);
            }
        }
        assert forall|a: int, b: int| 0 <= a < b < toks.len() implies (#[trigger] toks[a]).start.absolute
            < (#[trigger] toks[b]).start.absolute by {
            assert(toks[b] == rest[b - 1]);
            if a > 0 {
                assert(toks[a] == rest[a - 1]);
            }
        }
        assert forall|a: int| 0 <= a < toks.len() implies (#[trigger] toks[a]).start.absolute <= toks[a].end.absolute
            <= byte_length(s) by {
            if a > 0 {
                assert(toks[a] == rest[a - 1]);
            }
        }
    }
}


/// `peek_char` followed by `next_char` acts as `next_char` alone. `peek_char`
/// takes the lexer by shared reference, so it moves nothing, and it returns
/// `spec_peek_char()`; `next_char` returns `spec_next_char().0` and leaves the
/// lexer at index `spec_next_char().1`. So the look shows exactly the
/// character that the read then returns, any number of looks show the same
/// one, and the read moves one character on, or stays at the end of the text.
pub proof fn law_peek_then_next(l: LuaLexer)
    requires
        l.wf(),
    ensures
        l.spec_peek_char() == l.spec_next_char().0,
        l.spec_peek_char() is Some <==> l.index() < l.text().len(),
        l.spec_next_char().1 == if l.spec_peek_char() is Some {
            l.index() + 1
        } else {
            l.index()
        },
{
}


/// The operator and bracket tokens: each of `( ) { } ] + * / % ; : , # ^`
/// and a line break is a one-character token of its own kind, which starts
/// and ends at that character; `=`, `<`, `>` and `~` take the `=` that
/// follows into `==`, `<=`, `>=` and `~=` (ending at that `=`), and alone are
/// `=`, `<`, `>` and an invalid token.
pub proof fn law_operator_tokens(s: Seq<char>, i: int)
    requires
        0 <= i < s.len(),
    ensures
        s[i] == '(' ==> lx_scan(s, i) == (TokenKind::LeftBracket, i, i + 1),
        s[i] == ')' ==> lx_scan(s, i) == (TokenKind::RightBracket, i, i + 1),
        s[i] == '{' ==> lx_scan(s, i) == (TokenKind::LeftCurlyBracket, i, i + 1),
        s[i] == '}' ==> lx_scan(s, i) == (TokenKind::RightCurlyBracket, i, i + 1),
        s[i] == ']' ==> lx_scan(s, i) == (TokenKind::RightSquareBracket, i, i + 1),
        s[i] == '+' ==> lx_scan(s, i) == (TokenKind::Plus, i, i + 1),
        s[i] == '*' ==> lx_scan(s, i) == (TokenKind::Asterisk, i, i + 1),
        s[i] == '/' ==> lx_scan(s, i) == (TokenKind::Slash, i, i + 1),
        s[i] == '%' ==> lx_scan(s, i) == (TokenKind::Modulo, i, i + 1),
        s[i] == ';' ==> lx_scan(s, i) == (TokenKind::Semicolon, i, i + 1),
        s[i] == ':' ==> lx_scan(s, i) == (TokenKind::Colon, i, i + 1),
        s[i] == ',' ==> lx_scan(s, i) == (TokenKind::Comma, i, i + 1),
        s[i] == '#' ==> lx_scan(s, i) == (TokenKind::Hash, i, i + 1),
        s[i] == '^' ==> lx_scan(s, i) == (TokenKind::Hat, i, i + 1),
        s[i] == '\n' ==> lx_scan(s, i) == (TokenKind::Newline, i, i + 1),
        s[i] == '=' ==> lx_scan(s, i) == if at(s, i + 1, '=') {
            (TokenKind::EqualsBoolean, i + 1, i + 2)
        } else {
            (TokenKind::Assign, i, i + 1)
        },
        s[i] == '<' ==> lx_scan(s, i) == if at(s, i + 1, '=') {
            (TokenKind::LessThanOrEquals, i + 1, i + 2)
        } else {
            (TokenKind::LessThan, i, i + 1)
        },
        s[i] == '>' ==> lx_scan(s, i) == if at(s, i + 1, '=') {
            (TokenKind::GreaterThanOrEquals, i + 1, i + 2)
        } else {
            (TokenKind::GreaterThan, i, i + 1)
        },
        s[i] == '~' ==> lx_scan(s, i) == if at(s, i + 1, '=') {
            (TokenKind::NotEqualsBoolean, i + 1, i + 2)
        } else {
            (TokenKind::Invalid, i, i + 1)
        },
{
}

} // verus!
