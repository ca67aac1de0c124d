//! The tokenizer that feeds the syntax tree generator.
//!
//! Tokens carry byte offsets into the text: `start` is the offset of the
//! first character the token consumed, `end` the offset where the token's text
//! ends. The meaning of every token is given by `spec_scan`, a function of the
//! character sequence and the index where scanning starts.
pub mod token_validity;
pub mod token_modifier;

use vstd::prelude::*;
use crate::unicode::{
    alphabetic, alphanumeric, byte_length, byte_offset, char_offsets, lemma_byte_offset_mono, is_alphabetic, is_alphanumeric,
    is_ascii_hexdigit, is_numeric, is_whitespace, lemma_encode_len, numeric, spec_is_hex_digit,
    text_chars, whitespace,
};

verus! {

#[allow(inconsistent_fields)]
#[derive(PartialEq, Eq, Structural, Debug, Clone, Copy)]
pub enum TokenKind {
    Invalid,
    Whitespace,
    Newline,
    Comment { validity: token_validity::Comment, modifier: token_modifier::Comment },
    Identifier,
    String { validity: token_validity::String, modifier: token_modifier::String },
    Number { validity: token_validity::Number, modifier: token_modifier::Number },
    EoF,
    Dot,
    DoubleDot,
    TripleDot,
    LeftBracket,
    RightBracket,
    LeftCurlyBracket,
    RightCurlyBracket,
    LeftSquareBracket,
    RightSquareBracket,
    Minus,
    Plus,
    Asterisk,
    Slash,
    Modulo,
    Semicolon,
    Colon,
    EqualsBoolean,
    NotEqualsBoolean,
    LessThanOrEquals,
    GreaterThanOrEquals,
    LessThan,
    GreaterThan,
    Assign,
    Comma,
    Hash,
    Hat,
}

#[derive(PartialEq, Eq, Structural, Debug, Clone, Copy)]
pub struct Token {
    pub kind: TokenKind,
    pub start: usize,
    pub end: usize,
}

// ---------------------------------------------------------------------------
// What a token is. Each scanner below takes the characters `s` and the index
// `k` of the next unread character and gives (kind, end, next): the token's
// kind, the character index where its text ends, and the index where the
// following token starts.
// ---------------------------------------------------------------------------

pub open spec fn at(s: Seq<char>, k: int, c: char) -> bool {
    0 <= k < s.len() && s[k] == c
}

/// The index of the first character at or after `k` that does not satisfy `p`.
pub open spec fn run_end(s: Seq<char>, k: int, p: spec_fn(char) -> bool) -> int
    decreases s.len() - k,
{
    if 0 <= k < s.len() && p(s[k]) {
        run_end(s, k + 1, p)
    } else {
        k
    }
}

pub open spec fn is_name_char(c: char) -> bool {
    alphanumeric(c) || c == '_'
}

pub open spec fn is_digit(c: char) -> bool {
    '0' <= c && c <= '9'
}

/// `=`, `<`, `>` and `~`: the single character, or with a following `=` the
/// two-character operator.
pub open spec fn scan_two_char(s: Seq<char>, j: int, single: TokenKind, double: TokenKind) -> (
    TokenKind,
    int,
    int,
) {
    if at(s, j, '=') {
        (double, j + 1, j + 1)
    } else {
        (single, j, j)
    }
}

pub open spec fn number_kind(v: token_validity::Number, m: token_modifier::Number) -> TokenKind {
    TokenKind::Number { validity: v, modifier: m }
}

/// The body of a number: alphanumeric characters and dots, which may change the
/// notation (integer, decimal, exponential) or make the literal invalid.
pub open spec fn scan_number_rest(
    s: Seq<char>,
    k: int,
    m: token_modifier::Number,
    v: token_validity::Number,
    end: int,
) -> (TokenKind, int, int)
    decreases s.len() - k,
{
    if 0 <= k < s.len() && (alphanumeric(s[k]) || s[k] == '.') {
        let ch = s[k];
        let bad = token_validity::Number::Invalid;
        match m {
            token_modifier::Number::Hex => scan_number_rest(
                s,
                k + 1,
                m,
                if !spec_is_hex_digit(ch) { bad } else { v },
                k + 1,
            ),
            token_modifier::Number::Integer => if ch == '.' {
                scan_number_rest(s, k + 1, token_modifier::Number::Decimal, v, k + 1)
            } else {
                scan_number_rest(s, k + 1, m, if !numeric(ch) { bad } else { v }, k + 1)
            },
            token_modifier::Number::Decimal => if ch == 'E' || ch == 'e' {
                let k2 = if at(s, k + 1, '+') || at(s, k + 1, '-') { k + 2 } else { k + 1 };
                scan_number_rest(s, k2, token_modifier::Number::Exponential, v, k + 1)
            } else {
                scan_number_rest(s, k + 1, m, if !numeric(ch) { bad } else { v }, k + 1)
            },
            token_modifier::Number::Exponential => scan_number_rest(
                s,
                k + 1,
                m,
                if !numeric(ch) { bad } else { v },
                k + 1,
            ),
        }
    } else {
        (number_kind(v, m), end, k)
    }
}

/// A number whose first character `c` was read; `end` is where its text ends so far.
pub open spec fn scan_number(s: Seq<char>, c: char, end: int, k: int) -> (TokenKind, int, int) {
    let valid = token_validity::Number::Valid;
    if c == '0' && at(s, k, 'x') {
        scan_number_rest(s, k + 1, token_modifier::Number::Hex, valid, end)
    } else if c == '.' {
        scan_number_rest(s, k, token_modifier::Number::Decimal, valid, end)
    } else {
        scan_number_rest(s, k, token_modifier::Number::Integer, valid, end)
    }
}

pub open spec fn string_kind(v: token_validity::String, m: token_modifier::String) -> TokenKind {
    TokenKind::String { validity: v, modifier: m }
}

/// The body of a quoted string: it ends at the unescaped terminator, or is
/// unterminated at an unescaped line break or at the end of the text.
pub open spec fn scan_quoted_rest(
    s: Seq<char>,
    term: char,
    m: token_modifier::String,
    k: int,
    last: int,
    escaped: bool,
) -> (TokenKind, int, int)
    decreases s.len() - k,
{
    if 0 <= k < s.len() {
        let ch = s[k];
        if ch == term && !escaped {
            (string_kind(token_validity::String::Valid, m), k + 1, k + 1)
        } else if ch == '\\' && !escaped {
            scan_quoted_rest(s, term, m, k + 1, last, true)
        } else if (ch == '\n' || ch == '\r') && !escaped {
            (string_kind(token_validity::String::NotTerminated, m), last, k)
        } else {
            scan_quoted_rest(s, term, m, k + 1, k + 1, escaped && (ch == '\r' || ch == '\n'))
        }
    } else {
        (string_kind(token_validity::String::NotTerminated, m), last, k)
    }
}

pub open spec fn quote_modifier(term: char) -> token_modifier::String {
    if term == '\'' {
        token_modifier::String::Quotes
    } else {
        token_modifier::String::DoubleQuotes
    }
}

/// After a `]` inside a long-bracket string: reads up to `opening` equal signs;
/// stops after the first other character, or at the end of the text.
/// Gives (next index, end, number of equal signs read).
pub open spec fn scan_closing_level(s: Seq<char>, k: int, opening: nat, closing: nat, end: int) -> (
    int,
    int,
    nat,
)
    decreases s.len() - k,
{
    if closing < opening && 0 <= k < s.len() {
        if s[k] == '=' {
            scan_closing_level(s, k + 1, opening, closing + 1, k + 1)
        } else {
            (k + 1, k + 1, closing)
        }
    } else {
        (k, end, closing)
    }
}

pub proof fn lemma_closing_level(s: Seq<char>, k: int, opening: nat, closing: nat, end: int)
    requires
        0 <= k,
        closing <= opening,
    ensures
        scan_closing_level(s, k, opening, closing, end).0 >= k,
        scan_closing_level(s, k, opening, closing, end).0 <= s.len() || scan_closing_level(
            s,
            k,
            opening,
            closing,
            end,
        ).0 == k,
        (k < s.len() && closing < opening) ==> scan_closing_level(s, k, opening, closing, end).0
            > k,
        scan_closing_level(s, k, opening, closing, end).2 <= opening,
    decreases s.len() - k,
{
    if closing < opening && 0 <= k < s.len() && s[k] == '=' {
        lemma_closing_level(s, k + 1, opening, closing + 1, k + 1);
    }
}

/// The contents of a long-bracket string of level `opening`, from index `k`.
pub open spec fn scan_long_body(s: Seq<char>, k: int, opening: nat, end: int) -> (
    TokenKind,
    int,
    int,
)
    decreases s.len() - k,
{
    if 0 <= k < s.len() {
        let valid = string_kind(token_validity::String::Valid, token_modifier::String::LongBrackets);
        if s[k] == ']' {
            if opening > 0 {
                let (k2, end2, closing) = scan_closing_level(s, k + 1, opening, 0, k + 1);
                if closing == opening && at(s, k2, ']') {
                    (valid, k2 + 1, k2 + 1)
                } else {
                    proof {
                        lemma_closing_level(s, k + 1, opening, 0, k + 1);
                    }
                    scan_long_body(s, k2, opening, end2)
                }
            } else if at(s, k + 1, ']') {
                (valid, k + 2, k + 2)
            } else {
                scan_long_body(s, k + 1, opening, k + 1)
            }
        } else {
            scan_long_body(s, k + 1, opening, k + 1)
        }
    } else {
        (
            string_kind(token_validity::String::NotTerminated, token_modifier::String::LongBrackets),
            end,
            k,
        )
    }
}

/// The equal signs of an opening long bracket, after the first one.
pub open spec fn scan_long_level(s: Seq<char>, start: int, k: int, opening: nat) -> (
    TokenKind,
    int,
    int,
)
    decreases s.len() - k,
{
    if 0 <= k < s.len() {
        if s[k] == '=' {
            scan_long_level(s, start, k + 1, opening + 1)
        } else if s[k] == '[' {
            scan_long_body(s, k, opening, start)
        } else {
            (TokenKind::Invalid, k + 1, k)
        }
    } else {
        scan_long_body(s, k, opening, start)
    }
}

/// A long-bracket string whose `[` is at `start`; `j` is the index after it.
/// None when the text ends right after the `[`.
pub open spec fn scan_long_bracket(s: Seq<char>, start: int, j: int) -> Option<
    (TokenKind, int, int),
> {
    if 0 <= j < s.len() {
        if s[j] == '=' {
            Some(scan_long_level(s, start, j + 1, 1))
        } else if s[j] != '[' {
            Some((TokenKind::Invalid, j + 1, j + 1))
        } else {
            Some(scan_long_body(s, j + 1, 0, start))
        }
    } else {
        None
    }
}

/// A one-line comment: everything up to the next line break.
pub open spec fn scan_line_comment(s: Seq<char>, m: int, end: int) -> (TokenKind, int, int)
    decreases s.len() - m,
{
    if 0 <= m < s.len() && s[m] != '\r' && s[m] != '\n' {
        scan_line_comment(s, m + 1, m + 1)
    } else {
        (
            TokenKind::Comment {
                validity: token_validity::Comment::Valid,
                modifier: token_modifier::Comment::Oneline,
            },
            end,
            m,
        )
    }
}

/// `-` at index `j - 1`: minus, or a comment when a second `-` follows.
pub open spec fn scan_minus(s: Seq<char>, j: int) -> (TokenKind, int, int) {
    if at(s, j, '-') {
        let k = j + 1;
        if 0 <= k < s.len() {
            if s[k] == '[' {
                match scan_long_bracket(s, k, k + 1) {
                    Some((kind, e, nx)) => match kind {
                        TokenKind::String { validity: token_validity::String::NotTerminated, .. } => (
                            TokenKind::Comment {
                                validity: token_validity::Comment::NotTerminated,
                                modifier: token_modifier::Comment::Multiline,
                            },
                            e,
                            nx,
                        ),
                        TokenKind::Invalid => scan_line_comment(s, nx, k + 1),
                        _ => (
                            TokenKind::Comment {
                                validity: token_validity::Comment::Valid,
                                modifier: token_modifier::Comment::Multiline,
                            },
                            e,
                            nx,
                        ),
                    },
                    None => scan_line_comment(s, k + 1, k + 1),
                }
            } else {
                scan_line_comment(s, k, k + 1)
            }
        } else {
            (TokenKind::Minus, j, k)
        }
    } else {
        (TokenKind::Minus, j, j)
    }
}

/// `.` at index `j - 1`: one, two or three dots, or a decimal number.
pub open spec fn scan_dot(s: Seq<char>, j: int) -> (TokenKind, int, int) {
    if at(s, j, '.') {
        if at(s, j + 1, '.') {
            (TokenKind::TripleDot, j + 2, j + 2)
        } else {
            (TokenKind::DoubleDot, j + 1, j + 1)
        }
    } else if 0 <= j < s.len() && is_digit(s[j]) {
        scan_number(s, '.', j + 1, j)
    } else {
        (TokenKind::Dot, j, j)
    }
}

/// `[` at index `j - 1`: a bracket, or a long-bracket string when `[` or `=` follows.
pub open spec fn scan_open_square(s: Seq<char>, j: int) -> (TokenKind, int, int) {
    if at(s, j, '[') || at(s, j, '=') {
        scan_long_bracket(s, j - 1, j).unwrap()
    } else {
        (TokenKind::LeftSquareBracket, j, j)
    }
}

pub open spec fn single(kind: TokenKind, j: int) -> (TokenKind, int, int) {
    (kind, j, j)
}

/// The token that starts at character index `i` (which must be in the text).
pub open spec fn spec_scan(s: Seq<char>, i: int) -> (TokenKind, int, int) {
    let c = s[i];
    let j = i + 1;
    if c == '.' {
        scan_dot(s, j)
    } else if c == '(' {
        single(TokenKind::LeftBracket, j)
    } else if c == ')' {
        single(TokenKind::RightBracket, j)
    } else if c == '{' {
        single(TokenKind::LeftCurlyBracket, j)
    } else if c == '}' {
        single(TokenKind::RightCurlyBracket, j)
    } else if c == '[' {
        scan_open_square(s, j)
    } else if c == ']' {
        single(TokenKind::RightSquareBracket, j)
    } else if c == '-' {
        scan_minus(s, j)
    } else if c == '+' {
        single(TokenKind::Plus, j)
    } else if c == '*' {
        single(TokenKind::Asterisk, j)
    } else if c == '/' {
        single(TokenKind::Slash, j)
    } else if c == '%' {
        single(TokenKind::Modulo, j)
    } else if c == ';' {
        single(TokenKind::Semicolon, j)
    } else if c == ':' {
        single(TokenKind::Colon, j)
    } else if c == ',' {
        single(TokenKind::Comma, j)
    } else if c == '=' {
        scan_two_char(s, j, TokenKind::Assign, TokenKind::EqualsBoolean)
    } else if c == '<' {
        scan_two_char(s, j, TokenKind::LessThan, TokenKind::LessThanOrEquals)
    } else if c == '>' {
        scan_two_char(s, j, TokenKind::GreaterThan, TokenKind::GreaterThanOrEquals)
    } else if c == '~' {
        scan_two_char(s, j, TokenKind::Invalid, TokenKind::NotEqualsBoolean)
    } else if c == '#' {
        single(TokenKind::Hash, j)
    } else if c == '^' {
        single(TokenKind::Hat, j)
    } else if is_digit(c) {
        scan_number(s, c, j, j)
    } else if c == '"' || c == '\'' {
        scan_quoted_rest(s, c, quote_modifier(c), j, j, false)
    } else if c == '\n' {
        single(TokenKind::Newline, j)
    } else if c == '\r' {
        if at(s, j, '\n') {
            single(TokenKind::Newline, j + 1)
        } else {
            let e = run_end(s, j, |c: char| whitespace(c));
            (TokenKind::Whitespace, e, e)
        }
    } else if alphabetic(c) || c == '_' {
        let e = run_end(s, j, |c: char| is_name_char(c));
        (TokenKind::Identifier, e, e)
    } else if whitespace(c) {
        let e = run_end(s, j, |c: char| whitespace(c));
        (TokenKind::Whitespace, e, e)
    } else {
        single(TokenKind::Invalid, j)
    }
}

/// The token for character index `i`, with byte offsets.
pub open spec fn token_at(s: Seq<char>, i: int) -> Token {
    let (kind, end, _) = spec_scan(s, i);
    Token { kind, start: byte_offset(s, i) as usize, end: byte_offset(s, end) as usize }
}

/// The index where the token after the one at `i` starts.
pub open spec fn next_index(s: Seq<char>, i: int) -> int {
    spec_scan(s, i).2
}

/// The sequence of tokens read from index `i` to the end of the text.
pub open spec fn tokens_from(s: Seq<char>, i: int) -> Seq<Token>
    decreases s.len() - i,
{
    if 0 <= i < s.len() && i < next_index(s, i) <= s.len() {
        seq![token_at(s, i)] + tokens_from(s, next_index(s, i))
    } else {
        Seq::empty()
    }
}

/// Reads the tokens of a text one at a time.
pub struct Generator {
    chars: Vec<char>,
    offsets: Vec<usize>,
    idx: usize,
}

impl Generator {
    /// The characters of the text.
    pub closed spec fn text(&self) -> Seq<char> {
        self.chars@
    }

    /// The index of the next unread character.
    pub closed spec fn index(&self) -> int {
        self.idx as int
    }

    pub closed spec fn wf(&self) -> bool {
        &&& self.offsets@.len() == self.chars@.len() + 1
        &&& forall|i: int|
            0 <= i <= self.chars@.len() ==> #[trigger] self.offsets@[i] == byte_offset(
                self.chars@,
                i,
            )
        &&& self.idx <= self.chars@.len()
        &&& self.chars@.len() < usize::MAX
    }

    pub proof fn lemma_wf(&self)
        requires
            self.wf(),
        ensures
            0 <= self.index() <= self.text().len(),
            byte_length(self.text()) <= usize::MAX,
            self.text().len() < usize::MAX,
    {
        assert(self.offsets@[self.chars@.len() as int] == byte_offset(self.chars@, self.chars@.len() as int));
    }

    pub fn new(text: &str) -> (g: Generator)
        ensures
            g.wf(),
            g.text() == text@,
            g.index() == 0,
    {
        let chars = text_chars(text);
        proof {
            lemma_encode_len(text@);
        }
        let total = text.as_bytes().len();
        let offsets = char_offsets(&chars, total);
        let _ = offsets.len();
        Generator { chars, offsets, idx: 0 }
    }

    /// The characters from index `first` up to `last`.
    pub fn chars_between(&self, first: usize, last: usize) -> (v: Vec<char>)
        requires
            first <= last <= self.text().len(),
        ensures
            v@ == self.text().subrange(first as int, last as int),
    {
        let mut v: Vec<char> = Vec::new();
        let mut k = first;
        while k < last
            invariant
                first <= k <= last <= self.chars@.len(),
                v@ == self.chars@.subrange(first as int, k as int),
            decreases last - k,
        {
            v.push(self.chars[k]);
            k = k + 1;
        }
        v
    }

    /// The byte length of the text.
    pub fn text_length(&self) -> (n: usize)
        requires
            self.wf(),
        ensures
            n == byte_length(self.text()),
    {
        self.offsets[self.chars.len()]
    }

    /// The number of characters of the text.
    pub fn char_count(&self) -> (n: usize)
        ensures
            n == self.text().len(),
    {
        self.chars.len()
    }

    /// The byte offset of character index `i`.
    fn offset(&self, i: usize) -> (r: usize)
        requires
            self.wf(),
            i <= self.text().len(),
        ensures
            r == byte_offset(self.text(), i as int),
    {
        self.offsets[i]
    }

    fn make(&self, kind: TokenKind, start: usize, end: usize) -> (t: Token)
        requires
            self.wf(),
            start <= self.text().len(),
            end <= self.text().len(),
        ensures
            t == (Token {
                kind,
                start: byte_offset(self.text(), start as int) as usize,
                end: byte_offset(self.text(), end as int) as usize,
            }),
    {
        Token { kind, start: self.offsets[start], end: self.offsets[end] }
    }

    /// The next character, if any, without reading it: its byte offset, the
    /// character and the byte offset after it.
    fn peek_char(&self) -> (r: Option<(usize, char, usize)>)
        requires
            self.wf(),
        ensures
            self.index() < self.text().len() ==> r == Some(
                (
                    byte_offset(self.text(), self.index()) as usize,
                    self.text()[self.index()],
                    byte_offset(self.text(), self.index() + 1) as usize,
                ),
            ),
            self.index() >= self.text().len() ==> r is None,
    {
        if self.idx < self.chars.len() {
            Some((self.offsets[self.idx], self.chars[self.idx], self.offsets[self.idx + 1]))
        } else {
            None
        }
    }

    /// Reads the next character.
    fn next_char(&mut self) -> (r: Option<(usize, char, usize)>)
        requires
            old(self).wf(),
        ensures
            final(self).wf(),
            final(self).text() == old(self).text(),
            old(self).index() < old(self).text().len() ==> r == Some(
                (
                    byte_offset(old(self).text(), old(self).index()) as usize,
                    old(self).text()[old(self).index()],
                    byte_offset(old(self).text(), old(self).index() + 1) as usize,
                ),
            ) && final(self).index() == old(self).index() + 1,
            old(self).index() >= old(self).text().len() ==> r is None && final(self).index()
                == old(self).index(),
    {
        let r = self.peek_char();
        if self.idx < self.chars.len() {
            self.idx = self.idx + 1;
        }
        r
    }

    fn char_at(&self, k: usize) -> (c: char)
        requires
            k < self.text().len(),
        ensures
            c == self.text()[k as int],
    {
        self.chars[k]
    }

    fn is_at(&self, k: usize, c: char) -> (r: bool)
        ensures
            r == at(self.text(), k as int, c),
    {
        k < self.chars.len() && self.chars[k] == c
    }

    /// Reads every token, followed by an end-of-file token at the text's byte length.
    pub fn process_all(&mut self) -> (res: Vec<Token>)
        requires
            old(self).wf(),
        ensures
            final(self).wf(),
            final(self).text() == old(self).text(),
            final(self).index() == old(self).text().len(),
            res@ == tokens_from(old(self).text(), old(self).index()) + seq![
                Token {
                    kind: TokenKind::EoF,
                    start: byte_length(old(self).text()) as usize,
                    end: byte_length(old(self).text()) as usize,
                },
            ],
    {
        let mut res: Vec<Token> = Vec::new();
        let ghost s = self.text();
        let ghost i0 = self.index();
        loop
            invariant
                self.wf(),
                self.text() == s,
                tokens_from(s, i0) == res@ + tokens_from(s, self.index()),
                s == old(self).text(),
                i0 == old(self).index(),
            decreases s.len() - self.index(),
        {
            let ghost before = self.index();
            let token = self.next_token();
            match token {
                Some(t) => {
                    proof {
                        assert(tokens_from(s, before) == seq![t] + tokens_from(s, self.index()));
                    }
                    res.push(t);
                    assert(res@ + tokens_from(s, self.index()) =~= tokens_from(s, i0));
                },
                None => {
                    let end = self.offset(self.idx);
                    res.push(Token { kind: TokenKind::EoF, start: end, end });
                    assert(tokens_from(s, self.index()) =~= Seq::<Token>::empty());
                    assert(res@ =~= tokens_from(s, i0) + seq![
                        Token {
                            kind: TokenKind::EoF,
                            start: byte_length(s) as usize,
                            end: byte_length(s) as usize,
                        },
                    ]);
                    return res;
                },
            }
        }
    }

    /// Reads the next token: the one that `spec_scan` gives at the current
    /// index, or None at the end of the text.
    pub fn next_token(&mut self) -> (r: Option<Token>)
        requires
            old(self).wf(),
        ensures
            final(self).wf(),
            final(self).text() == old(self).text(),
            old(self).index() < old(self).text().len() ==> r == Some(
                token_at(old(self).text(), old(self).index()),
            ) && final(self).index() == next_index(old(self).text(), old(self).index())
                && old(self).index() < final(self).index() <= old(self).text().len(),
            old(self).index() >= old(self).text().len() ==> r is None && final(self).index()
                == old(self).index(),
    {
        match self.next_scanned() {
            Some((t, _, _)) => Some(t),
            None => None,
        }
    }

    /// The next token together with the character indices where its text
    /// starts and ends.
    pub fn next_scanned(&mut self) -> (r: Option<(Token, usize, usize)>)
        requires
            old(self).wf(),
        ensures
            final(self).wf(),
            final(self).text() == old(self).text(),
            old(self).index() < old(self).text().len() ==> r == Some(
                (
                    token_at(old(self).text(), old(self).index()),
                    old(self).index() as usize,
                    spec_scan(old(self).text(), old(self).index()).1 as usize,
                ),
            ) && final(self).index() == next_index(old(self).text(), old(self).index())
                && old(self).index() < final(self).index() <= old(self).text().len()
                && old(self).index() <= spec_scan(old(self).text(), old(self).index()).1
                <= old(self).text().len(),
            old(self).index() >= old(self).text().len() ==> r is None && final(self).index()
                == old(self).index(),
    {
        let ghost s = self.text();
        let i = self.idx;
        if i >= self.chars.len() {
            return None;
        }
        let ch = self.chars[i];
        self.idx = i + 1;
        let j = i + 1;
        proof {
            lemma_scan_bounds(s, i as int);
        }
        let (kind, end): (TokenKind, usize) = if ch == '.' {
            self.scan_dot(j)
        } else if ch == '(' {
            (TokenKind::LeftBracket, j)
        } else if ch == ')' {
            (TokenKind::RightBracket, j)
        } else if ch == '{' {
            (TokenKind::LeftCurlyBracket, j)
        } else if ch == '}' {
            (TokenKind::RightCurlyBracket, j)
        } else if ch == '[' {
            self.scan_open_square_bracket(j)
        } else if ch == ']' {
            (TokenKind::RightSquareBracket, j)
        } else if ch == '-' {
            self.scan_minus(j)
        } else if ch == '+' {
            (TokenKind::Plus, j)
        } else if ch == '*' {
            (TokenKind::Asterisk, j)
        } else if ch == '/' {
            (TokenKind::Slash, j)
        } else if ch == '%' {
            (TokenKind::Modulo, j)
        } else if ch == ';' {
            (TokenKind::Semicolon, j)
        } else if ch == ':' {
            (TokenKind::Colon, j)
        } else if ch == ',' {
            (TokenKind::Comma, j)
        } else if ch == '=' {
            self.scan_equals(j)
        } else if ch == '<' {
            self.scan_less_than(j)
        } else if ch == '>' {
            self.scan_greater_than(j)
        } else if ch == '~' {
            self.scan_tilde(j)
        } else if ch == '#' {
            (TokenKind::Hash, j)
        } else if ch == '^' {
            (TokenKind::Hat, j)
        } else if '0' <= ch && ch <= '9' {
            self.scan_number(ch, j)
        } else if ch == '"' || ch == '\'' {
            self.scan_simple_string(ch)
        } else if ch == '\n' {
            (TokenKind::Newline, j)
        } else if ch == '\r' {
            if self.is_at(j, '\n') {
                self.idx = j + 1;
                (TokenKind::Newline, j + 1)
            } else {
                self.scan_whitespace()
            }
        } else if is_alphabetic(ch) || ch == '_' {
            self.scan_identifier()
        } else if is_whitespace(ch) {
            self.scan_whitespace()
        } else {
            (TokenKind::Invalid, j)
        };
        Some((self.make(kind, i, end), i, end))
    }

    fn scan_two_char(&mut self, j: usize, single: TokenKind, double: TokenKind) -> (r: (
        TokenKind,
        usize,
    ))
        requires
            old(self).wf(),
            old(self).index() == j,
            j <= old(self).text().len(),
        ensures
            final(self).wf(),
            final(self).text() == old(self).text(),
            (r.0, r.1 as int, final(self).index()) == scan_two_char(
                old(self).text(),
                j as int,
                single,
                double,
            ),
    {
        if self.is_at(j, '=') {
            self.idx = j + 1;
            (double, j + 1)
        } else {
            (single, j)
        }
    }

    fn scan_equals(&mut self, j: usize) -> (r: (TokenKind, usize))
        requires
            old(self).wf(),
            old(self).index() == j,
            j <= old(self).text().len(),
        ensures
            final(self).wf(),
            final(self).text() == old(self).text(),
            (r.0, r.1 as int, final(self).index()) == scan_two_char(
                old(self).text(),
                j as int,
                TokenKind::Assign,
                TokenKind::EqualsBoolean,
            ),
    {
        self.scan_two_char(j, TokenKind::Assign, TokenKind::EqualsBoolean)
    }

    fn scan_less_than(&mut self, j: usize) -> (r: (TokenKind, usize))
        requires
            old(self).wf(),
            old(self).index() == j,
            j <= old(self).text().len(),
        ensures
            final(self).wf(),
            final(self).text() == old(self).text(),
            (r.0, r.1 as int, final(self).index()) == scan_two_char(
                old(self).text(),
                j as int,
                TokenKind::LessThan,
                TokenKind::LessThanOrEquals,
            ),
    {
        self.scan_two_char(j, TokenKind::LessThan, TokenKind::LessThanOrEquals)
    }

    fn scan_greater_than(&mut self, j: usize) -> (r: (TokenKind, usize))
        requires
            old(self).wf(),
            old(self).index() == j,
            j <= old(self).text().len(),
        ensures
            final(self).wf(),
            final(self).text() == old(self).text(),
            (r.0, r.1 as int, final(self).index()) == scan_two_char(
                old(self).text(),
                j as int,
                TokenKind::GreaterThan,
                TokenKind::GreaterThanOrEquals,
            ),
    {
        self.scan_two_char(j, TokenKind::GreaterThan, TokenKind::GreaterThanOrEquals)
    }

    fn scan_tilde(&mut self, j: usize) -> (r: (TokenKind, usize))
        requires
            old(self).wf(),
            old(self).index() == j,
            j <= old(self).text().len(),
        ensures
            final(self).wf(),
            final(self).text() == old(self).text(),
            (r.0, r.1 as int, final(self).index()) == scan_two_char(
                old(self).text(),
                j as int,
                TokenKind::Invalid,
                TokenKind::NotEqualsBoolean,
            ),
    {
        self.scan_two_char(j, TokenKind::Invalid, TokenKind::NotEqualsBoolean)
    }

    fn scan_whitespace(&mut self) -> (r: (TokenKind, usize))
        requires
            old(self).wf(),
        ensures
            final(self).wf(),
            final(self).text() == old(self).text(),
            ({
                let e = run_end(old(self).text(), old(self).index(), |c: char| whitespace(c));
                r == (TokenKind::Whitespace, e as usize) && final(self).index() == e
            }),
    {
        let ghost s = self.text();
        let ghost target = run_end(s, self.index(), |c: char| whitespace(c));
        while self.idx < self.chars.len() && is_whitespace(self.chars[self.idx])
            invariant
                self.wf(),
                self.text() == s,
                run_end(s, self.index(), |c: char| whitespace(c)) == target,
            decreases s.len() - self.index(),
        {
            self.idx = self.idx + 1;
        }
        (TokenKind::Whitespace, self.idx)
    }

    fn scan_identifier(&mut self) -> (r: (TokenKind, usize))
        requires
            old(self).wf(),
        ensures
            final(self).wf(),
            final(self).text() == old(self).text(),
            ({
                let e = run_end(old(self).text(), old(self).index(), |c: char| is_name_char(c));
                r == (TokenKind::Identifier, e as usize) && final(self).index() == e
            }),
    {
        let ghost s = self.text();
        let ghost target = run_end(s, self.index(), |c: char| is_name_char(c));
        while self.idx < self.chars.len() && (is_alphanumeric(self.chars[self.idx])
            || self.chars[self.idx] == '_')
            invariant
                self.wf(),
                self.text() == s,
                run_end(s, self.index(), |c: char| is_name_char(c)) == target,
            decreases s.len() - self.index(),
        {
            self.idx = self.idx + 1;
        }
        (TokenKind::Identifier, self.idx)
    }

    fn scan_dot(&mut self, j: usize) -> (r: (TokenKind, usize))
        requires
            old(self).wf(),
            old(self).index() == j,
            j <= old(self).text().len(),
        ensures
            final(self).wf(),
            final(self).text() == old(self).text(),
            (r.0, r.1 as int, final(self).index()) == scan_dot(old(self).text(), j as int),
    {
        if self.is_at(j, '.') {
            self.idx = j + 1;
            if self.is_at(j + 1, '.') {
                self.idx = j + 2;
                return (TokenKind::TripleDot, j + 2);
            }
            return (TokenKind::DoubleDot, j + 1);
        }
        if j < self.chars.len() && '0' <= self.chars[j] && self.chars[j] <= '9' {
            return self.scan_number('.', j + 1);
        }
        (TokenKind::Dot, j)
    }

    fn scan_open_square_bracket(&mut self, j: usize) -> (r: (TokenKind, usize))
        requires
            old(self).wf(),
            old(self).index() == j,
            1 <= j <= old(self).text().len(),
        ensures
            final(self).wf(),
            final(self).text() == old(self).text(),
            (r.0, r.1 as int, final(self).index()) == scan_open_square(old(self).text(), j as int),
    {
        if self.is_at(j, '[') || self.is_at(j, '=') {
            match self.scan_long_bracket_string(j - 1) {
                Some(t) => t,
                None => (TokenKind::Invalid, j),
            }
        } else {
            (TokenKind::LeftSquareBracket, j)
        }
    }

    /// A long-bracket string whose `[` is at character index `start` and was read.
    fn scan_long_bracket_string(&mut self, start: usize) -> (r: Option<(TokenKind, usize)>)
        requires
            old(self).wf(),
            old(self).index() == start + 1,
            start + 1 <= old(self).text().len(),
        ensures
            final(self).wf(),
            final(self).text() == old(self).text(),
            match scan_long_bracket(old(self).text(), start as int, start + 1) {
                Some(v) => r matches Some(t) && (t.0, t.1 as int, final(self).index()) == v,
                None => r is None && final(self).index() == old(self).index(),
            },
            old(self).index() <= final(self).index() <= old(self).text().len(),
    {
        let ghost s = self.text();
        let j = self.idx;
        if j >= self.chars.len() {
            return None;
        }
        let ch = self.chars[j];
        self.idx = j + 1;
        let mut opening: usize = 0;
        if ch == '=' {
            opening = 1;
            let ghost target = scan_long_level(s, start as int, j + 1, 1);
            while self.idx < self.chars.len()
                invariant
                    self.wf(),
                    self.text() == s,
                    j < self.index() <= s.len(),
                    1 <= opening <= self.index() - j,
                    scan_long_level(s, start as int, self.index(), opening as nat) == target,
                    s == old(self).text(),
                    j == start + 1,
                    s[j as int] == '=',
                    target == scan_long_level(s, start as int, j + 1, 1),
                    old(self).index() == j,
                ensures
                    self.index() < s.len() ==> s[self.index()] == '[',
                    self.index() <= s.len(),
                    scan_long_level(s, start as int, self.index(), opening as nat) == target,
                decreases s.len() - self.index(),
            {
                let c = self.chars[self.idx];
                if c == '=' {
                    opening = opening + 1;
                } else if c == '[' {
                    break;
                } else {
                    return Some((TokenKind::Invalid, self.idx + 1));
                }
                self.idx = self.idx + 1;
            }
            proof {
                lemma_long_level_step(s, start as int, self.index(), opening as nat);
            }
        } else if ch != '[' {
            return Some((TokenKind::Invalid, j + 1));
        }
        self.scan_long_body(start, opening)
    }

    fn scan_long_body(&mut self, start: usize, opening: usize) -> (r: Option<(TokenKind, usize)>)
        requires
            old(self).wf(),
            start < old(self).index() <= old(self).text().len(),
        ensures
            final(self).wf(),
            final(self).text() == old(self).text(),
            r matches Some(t) && (t.0, t.1 as int, final(self).index()) == scan_long_body(
                old(self).text(),
                old(self).index(),
                opening as nat,
                start as int,
            ),
            old(self).index() <= final(self).index() <= old(self).text().len(),
    {
        let ghost s = self.text();
        let ghost target = scan_long_body(s, self.index(), opening as nat, start as int);
        let mut end: usize = start;
        while self.idx < self.chars.len()
            invariant
                self.wf(),
                self.text() == s,
                end <= self.index() <= s.len(),
                scan_long_body(s, self.index(), opening as nat, end as int) == target,
                s == old(self).text(),
                old(self).index() <= self.index(),
                target == scan_long_body(s, old(self).index(), opening as nat, start as int),
            decreases s.len() - self.index(),
        {
            let k = self.idx;
            let c = self.chars[k];
            self.idx = k + 1;
            end = k + 1;
            if c == ']' {
                if opening > 0 {
                    let mut closing: usize = 0;
                    let ghost inner = scan_closing_level(s, k + 1, opening as nat, 0, k + 1);
                    while closing < opening && self.idx < self.chars.len()
                        invariant_except_break
                            scan_closing_level(s, self.index(), opening as nat, closing as nat, end as int)
                                == inner,
                        invariant
                            self.wf(),
                            self.text() == s,
                            k + 1 <= end <= self.index() <= s.len(),
                            closing <= opening,
                        ensures
                            (self.index(), end as int, closing as nat) == inner,
                        decreases s.len() - self.index(),
                    {
                        let c2 = self.chars[self.idx];
                        self.idx = self.idx + 1;
                        end = self.idx;
                        if c2 == '=' {
                            closing = closing + 1;
                        } else {
                            break;
                        }
                    }
                    if closing == opening && self.is_at(self.idx, ']') {
                        self.idx = self.idx + 1;
                        return Some(
                            (
                                TokenKind::String {
                                    validity: token_validity::String::Valid,
                                    modifier: token_modifier::String::LongBrackets,
                                },
                                self.idx,
                            ),
                        );
                    }
                } else if self.is_at(k + 1, ']') {
                    self.idx = k + 2;
                    return Some(
                        (
                            TokenKind::String {
                                validity: token_validity::String::Valid,
                                modifier: token_modifier::String::LongBrackets,
                            },
                            k + 2,
                        ),
                    );
                }
            }
        }
        Some(
            (
                TokenKind::String {
                    validity: token_validity::String::NotTerminated,
                    modifier: token_modifier::String::LongBrackets,
                },
                end,
            ),
        )
    }

    fn scan_minus(&mut self, j: usize) -> (r: (TokenKind, usize))
        requires
            old(self).wf(),
            old(self).index() == j,
            j <= old(self).text().len(),
        ensures
            final(self).wf(),
            final(self).text() == old(self).text(),
            (r.0, r.1 as int, final(self).index()) == scan_minus(old(self).text(), j as int),
    {
        let ghost s = self.text();
        if self.is_at(j, '-') {
            self.idx = j + 1;
            let k = j + 1;
            if k < self.chars.len() {
                if self.chars[k] == '[' {
                    self.idx = k + 1;
                    let multiline = self.scan_long_bracket_string(k);
                    if let Some(t) = multiline {
                        match t.0 {
                            TokenKind::String {
                                validity: token_validity::String::NotTerminated,
                                modifier: _,
                            } => {
                                return (
                                    TokenKind::Comment {
                                        validity: token_validity::Comment::NotTerminated,
                                        modifier: token_modifier::Comment::Multiline,
                                    },
                                    t.1,
                                );
                            },
                            TokenKind::Invalid => {},
                            _ => {
                                return (
                                    TokenKind::Comment {
                                        validity: token_validity::Comment::Valid,
                                        modifier: token_modifier::Comment::Multiline,
                                    },
                                    t.1,
                                );
                            },
                        }
                    }
                }
                return self.scan_line_comment(k + 1);
            }
            return (TokenKind::Minus, j);
        }
        (TokenKind::Minus, j)
    }

    fn scan_line_comment(&mut self, end0: usize) -> (r: (TokenKind, usize))
        requires
            old(self).wf(),
            end0 <= old(self).text().len(),
        ensures
            final(self).wf(),
            final(self).text() == old(self).text(),
            (r.0, r.1 as int, final(self).index()) == scan_line_comment(
                old(self).text(),
                old(self).index(),
                end0 as int,
            ),
    {
        let ghost s = self.text();
        let ghost target = scan_line_comment(s, self.index(), end0 as int);
        let mut end = end0;
        while self.idx < self.chars.len() && self.chars[self.idx] != '\r' && self.chars[self.idx]
            != '\n'
            invariant
                self.wf(),
                self.text() == s,
                end <= s.len(),
                scan_line_comment(s, self.index(), end as int) == target,
            decreases s.len() - self.index(),
        {
            self.idx = self.idx + 1;
            end = self.idx;
        }
        (
            TokenKind::Comment {
                validity: token_validity::Comment::Valid,
                modifier: token_modifier::Comment::Oneline,
            },
            end,
        )
    }

    /// A number whose first character `ch` was read; its text ends at `end` so far.
    fn scan_number(&mut self, ch: char, end: usize) -> (r: (TokenKind, usize))
        requires
            old(self).wf(),
            end <= old(self).text().len(),
        ensures
            final(self).wf(),
            final(self).text() == old(self).text(),
            (r.0, r.1 as int, final(self).index()) == scan_number(
                old(self).text(),
                ch,
                end as int,
                old(self).index(),
            ),
    {
        let ghost s = self.text();
        let mut modifier = token_modifier::Number::Integer;
        let mut validity = token_validity::Number::Valid;
        if ch == '0' && self.is_at(self.idx, 'x') {
            self.idx = self.idx + 1;
            modifier = token_modifier::Number::Hex;
        } else if ch == '.' {
            modifier = token_modifier::Number::Decimal;
        }
        let ghost target = scan_number_rest(s, self.index(), modifier, validity, end as int);
        let mut end = end;
        while self.idx < self.chars.len() && (is_alphanumeric(self.chars[self.idx])
            || self.chars[self.idx] == '.')
            invariant
                self.wf(),
                self.text() == s,
                end <= s.len(),
                scan_number_rest(s, self.index(), modifier, validity, end as int) == target,
            decreases s.len() - self.index(),
        {
            let c = self.chars[self.idx];
            self.idx = self.idx + 1;
            end = self.idx;
            match modifier {
                token_modifier::Number::Hex => {
                    if !is_ascii_hexdigit(c) {
                        validity = token_validity::Number::Invalid;
                    }
                },
                token_modifier::Number::Integer => {
                    if c == '.' {
                        modifier = token_modifier::Number::Decimal;
                    } else if !is_numeric(c) {
                        validity = token_validity::Number::Invalid;
                    }
                },
                token_modifier::Number::Decimal => {
                    if c == 'E' || c == 'e' {
                        modifier = token_modifier::Number::Exponential;
                        if self.is_at(self.idx, '+') || self.is_at(self.idx, '-') {
                            self.idx = self.idx + 1;
                        }
                    } else if !is_numeric(c) {
                        validity = token_validity::Number::Invalid;
                    }
                },
                token_modifier::Number::Exponential => {
                    if !is_numeric(c) {
                        validity = token_validity::Number::Invalid;
                    }
                },
            }
        }
        (TokenKind::Number { validity, modifier }, end)
    }

    /// A quoted string whose opening quote `terminator` was read.
    fn scan_simple_string(&mut self, terminator: char) -> (r: (TokenKind, usize))
        requires
            old(self).wf(),
            old(self).index() <= old(self).text().len(),
        ensures
            final(self).wf(),
            final(self).text() == old(self).text(),
            (r.0, r.1 as int, final(self).index()) == scan_quoted_rest(
                old(self).text(),
                terminator,
                quote_modifier(terminator),
                old(self).index(),
                old(self).index(),
                false,
            ),
    {
        let ghost s = self.text();
        let modifier = if terminator == '\'' {
            token_modifier::String::Quotes
        } else {
            token_modifier::String::DoubleQuotes
        };
        let mut seen_escape = false;
        let mut last_stable_pos: usize = self.idx;
        let ghost target = scan_quoted_rest(
            s,
            terminator,
            modifier,
            self.index(),
            self.index(),
            false,
        );
        while self.idx < self.chars.len()
            invariant
                self.wf(),
                self.text() == s,
                last_stable_pos <= s.len(),
                scan_quoted_rest(
                    s,
                    terminator,
                    modifier,
                    self.index(),
                    last_stable_pos as int,
                    seen_escape,
                ) == target,
                s == old(self).text(),
                modifier == quote_modifier(terminator),
                target == scan_quoted_rest(
                    s,
                    terminator,
                    modifier,
                    old(self).index(),
                    old(self).index(),
                    false,
                ),
            decreases s.len() - self.index(),
        {
            let c = self.chars[self.idx];
            if c == terminator && !seen_escape {
                self.idx = self.idx + 1;
                return (
                    TokenKind::String { validity: token_validity::String::Valid, modifier },
                    self.idx,
                );
            } else if c == '\\' && !seen_escape {
                seen_escape = true;
            } else if (c == '\n' || c == '\r') && !seen_escape {
                return (
                    TokenKind::String { validity: token_validity::String::NotTerminated, modifier },
                    last_stable_pos,
                );
            } else {
                seen_escape = seen_escape && (c == '\r' || c == '\n');
                last_stable_pos = self.idx + 1;
            }
            self.idx = self.idx + 1;
        }
        (
            TokenKind::String { validity: token_validity::String::NotTerminated, modifier },
            last_stable_pos,
        )
    }
}

pub proof fn lemma_long_level_step(s: Seq<char>, start: int, k: int, opening: nat)
    requires
        0 <= k <= s.len(),
        k < s.len() ==> s[k] == '[',
    ensures
        scan_long_level(s, start, k, opening) == scan_long_body(s, k, opening, start),
{
}

pub open spec fn within(r: (TokenKind, int, int), lo: int, elo: int, n: int) -> bool {
    lo <= r.2 <= n && elo <= r.1 <= n
}

pub proof fn lemma_run_end(s: Seq<char>, k: int, p: spec_fn(char) -> bool)
    requires
        0 <= k <= s.len(),
    ensures
        k <= run_end(s, k, p) <= s.len(),
    decreases s.len() - k,
{
    if k < s.len() && p(s[k]) {
        lemma_run_end(s, k + 1, p);
    }
}

pub proof fn lemma_number_rest(
    s: Seq<char>,
    k: int,
    m: token_modifier::Number,
    v: token_validity::Number,
    end: int,
    elo: int,
)
    requires
        0 <= k <= s.len(),
        0 <= end <= s.len(),
        elo <= end,
        elo <= k,
    ensures
        within(scan_number_rest(s, k, m, v, end), k, elo, s.len() as int),
    decreases s.len() - k,
{
    if 0 <= k < s.len() && (alphanumeric(s[k]) || s[k] == '.') {
        let ch = s[k];
        let bad = token_validity::Number::Invalid;
        match m {
            token_modifier::Number::Hex => lemma_number_rest(
                s,
                k + 1,
                m,
                if !spec_is_hex_digit(ch) { bad } else { v },
                k + 1,
                elo,
            ),
            token_modifier::Number::Integer => if ch == '.' {
                lemma_number_rest(s, k + 1, token_modifier::Number::Decimal, v, k + 1, elo)
            } else {
                lemma_number_rest(s, k + 1, m, if !numeric(ch) { bad } else { v }, k + 1, elo)
            },
            token_modifier::Number::Decimal => if ch == 'E' || ch == 'e' {
                let k2 = if at(s, k + 1, '+') || at(s, k + 1, '-') { k + 2 } else { k + 1 };
                lemma_number_rest(s, k2, token_modifier::Number::Exponential, v, k + 1, elo)
            } else {
                lemma_number_rest(s, k + 1, m, if !numeric(ch) { bad } else { v }, k + 1, elo)
            },
            token_modifier::Number::Exponential => lemma_number_rest(
                s,
                k + 1,
                m,
                if !numeric(ch) { bad } else { v },
                k + 1,
                elo,
            ),
        }
    }
}

pub proof fn lemma_quoted_rest(
    s: Seq<char>,
    term: char,
    m: token_modifier::String,
    k: int,
    last: int,
    escaped: bool,
    elo: int,
)
    requires
        0 <= k <= s.len(),
        0 <= last <= s.len(),
        elo <= last,
        elo <= k,
    ensures
        within(scan_quoted_rest(s, term, m, k, last, escaped), k, elo, s.len() as int),
    decreases s.len() - k,
{
    if 0 <= k < s.len() {
        let ch = s[k];
        if ch == term && !escaped {
        } else if ch == '\\' && !escaped {
            lemma_quoted_rest(s, term, m, k + 1, last, true, elo);
        } else if (ch == '\n' || ch == '\r') && !escaped {
        } else {
            lemma_quoted_rest(s, term, m, k + 1, k + 1, escaped && (ch == '\r' || ch == '\n'), elo);
        }
    }
}

pub proof fn lemma_long_body(s: Seq<char>, k: int, opening: nat, end: int, elo: int)
    requires
        0 <= k <= s.len(),
        0 <= end <= s.len(),
        elo <= end,
        elo <= k,
    ensures
        within(scan_long_body(s, k, opening, end), k, elo, s.len() as int),
    decreases s.len() - k,
{
    if 0 <= k < s.len() {
        if s[k] == ']' {
            if opening > 0 {
                lemma_closing_level(s, k + 1, opening, 0, k + 1);
                lemma_closing_end(s, k + 1, opening, 0, k + 1);
                let (k2, end2, closing) = scan_closing_level(s, k + 1, opening, 0, k + 1);
                if closing == opening && at(s, k2, ']') {
                } else {
                    lemma_long_body(s, k2, opening, end2, elo);
                }
            } else if at(s, k + 1, ']') {
            } else {
                lemma_long_body(s, k + 1, opening, k + 1, elo);
            }
        } else {
            lemma_long_body(s, k + 1, opening, k + 1, elo);
        }
    }
}

pub proof fn lemma_closing_end(s: Seq<char>, k: int, opening: nat, closing: nat, end: int)
    requires
        0 <= k <= s.len(),
        0 <= end <= s.len(),
    ensures
        0 <= scan_closing_level(s, k, opening, closing, end).1 <= s.len(),
        scan_closing_level(s, k, opening, closing, end).1 >= end || scan_closing_level(s, k, opening, closing, end).1 >= k,
        scan_closing_level(s, k, opening, closing, end).0 <= s.len(),
    decreases s.len() - k,
{
    if closing < opening && 0 <= k < s.len() && s[k] == '=' {
        lemma_closing_end(s, k + 1, opening, closing + 1, k + 1);
    }
}

pub proof fn lemma_long_level(s: Seq<char>, start: int, k: int, opening: nat)
    requires
        0 <= k <= s.len(),
        0 <= start < k,
    ensures
        within(scan_long_level(s, start, k, opening), k, start, s.len() as int),
    decreases s.len() - k,
{
    if 0 <= k < s.len() {
        if s[k] == '=' {
            lemma_long_level(s, start, k + 1, opening + 1);
        } else if s[k] == '[' {
            lemma_long_body(s, k, opening, start, start);
        }
    } else {
        lemma_long_body(s, k, opening, start, start);
    }
}

pub proof fn lemma_long_bracket(s: Seq<char>, start: int, j: int)
    requires
        0 <= start < j <= s.len(),
    ensures
        scan_long_bracket(s, start, j) matches Some(r) ==> within(r, j, start, s.len() as int),
{
    if 0 <= j < s.len() {
        if s[j] == '=' {
            lemma_long_level(s, start, j + 1, 1);
        } else if s[j] != '[' {
        } else {
            lemma_long_body(s, j + 1, 0, start, start);
        }
    }
}

pub proof fn lemma_line_comment(s: Seq<char>, m: int, end: int)
    requires
        0 <= m <= s.len(),
        0 <= end <= s.len(),
    ensures
        within(scan_line_comment(s, m, end), m, if end <= m { end } else { m }, s.len() as int),
    decreases s.len() - m,
{
    if 0 <= m < s.len() && s[m] != '\r' && s[m] != '\n' {
        lemma_line_comment(s, m + 1, m + 1);
    }
}

/// Every scanner consumes at least one character and stays within the text;
/// the token's text ends within the text.
pub proof fn lemma_scan_bounds(s: Seq<char>, i: int)
    requires
        0 <= i < s.len(),
    ensures
        within(spec_scan(s, i), i + 1, i, s.len() as int),
{
    let c = s[i];
    let j = i + 1;
    if c == '.' {
        if 0 <= j < s.len() && is_digit(s[j]) && !at(s, j, '.') {
            lemma_number_rest(s, j, token_modifier::Number::Decimal, token_validity::Number::Valid, j + 1, i);
        }
    } else if c == '[' {
        if at(s, j, '[') || at(s, j, '=') {
            lemma_long_bracket(s, i, j);
        }
    } else if c == '-' {
        if at(s, j, '-') {
            let k = j + 1;
            if 0 <= k < s.len() {
                if s[k] == '[' {
                    lemma_long_bracket(s, k, k + 1);
                    match scan_long_bracket(s, k, k + 1) {
                        Some((kind, e, nx)) => {
                            lemma_line_comment(s, nx, k + 1);
                        },
                        None => {
                            lemma_line_comment(s, k + 1, k + 1);
                        },
                    }
                } else {
                    lemma_line_comment(s, k, k + 1);
                }
            }
        }
    } else if is_digit(c) {
        let valid = token_validity::Number::Valid;
        if c == '0' && at(s, j, 'x') {
            lemma_number_rest(s, j + 1, token_modifier::Number::Hex, valid, j, i);
        } else {
            lemma_number_rest(s, j, token_modifier::Number::Integer, valid, j, i);
        }
    } else if c == '"' || c == '\'' {
        lemma_quoted_rest(s, c, quote_modifier(c), j, j, false, i);
    } else if c == '\r' {
        lemma_run_end(s, j, |c: char| whitespace(c));
    } else if alphabetic(c) || c == '_' {
        lemma_run_end(s, j, |c: char| is_name_char(c));
    } else if whitespace(c) {
        lemma_run_end(s, j, |c: char| whitespace(c));
    }
}

proof fn lemma_number_rest_kind(
    s: Seq<char>,
    k: int,
    m: token_modifier::Number,
    v: token_validity::Number,
    end: int,
)
    ensures
        scan_number_rest(s, k, m, v, end).0 is Number,
    decreases s.len() - k,
{
    if 0 <= k < s.len() && (alphanumeric(s[k]) || s[k] == '.') {
        let ch = s[k];
        let bad = token_validity::Number::Invalid;
        match m {
            token_modifier::Number::Hex => lemma_number_rest_kind(
                s,
                k + 1,
                m,
                if !spec_is_hex_digit(ch) { bad } else { v },
                k + 1,
            ),
            token_modifier::Number::Integer => if ch == '.' {
                lemma_number_rest_kind(s, k + 1, token_modifier::Number::Decimal, v, k + 1)
            } else {
                lemma_number_rest_kind(s, k + 1, m, if !numeric(ch) { bad } else { v }, k + 1)
            },
            token_modifier::Number::Decimal => if ch == 'E' || ch == 'e' {
                let k2 = if at(s, k + 1, '+') || at(s, k + 1, '-') { k + 2 } else { k + 1 };
                lemma_number_rest_kind(s, k2, token_modifier::Number::Exponential, v, k + 1)
            } else {
                lemma_number_rest_kind(s, k + 1, m, if !numeric(ch) { bad } else { v }, k + 1)
            },
            token_modifier::Number::Exponential => lemma_number_rest_kind(
                s,
                k + 1,
                m,
                if !numeric(ch) { bad } else { v },
                k + 1,
            ),
        }
    }
}

proof fn lemma_quoted_rest_kind(
    s: Seq<char>,
    term: char,
    m: token_modifier::String,
    k: int,
    last: int,
    escaped: bool,
)
    ensures
        scan_quoted_rest(s, term, m, k, last, escaped).0 is String,
    decreases s.len() - k,
{
    if 0 <= k < s.len() {
        let ch = s[k];
        if ch == term && !escaped {
        } else if ch == '\\' && !escaped {
            lemma_quoted_rest_kind(s, term, m, k + 1, last, true);
        } else if (ch == '\n' || ch == '\r') && !escaped {
        } else {
            lemma_quoted_rest_kind(s, term, m, k + 1, k + 1, escaped && (ch == '\r' || ch == '\n'));
        }
    }
}

proof fn lemma_long_body_kind(s: Seq<char>, k: int, opening: nat, end: int)
    requires
        0 <= k,
    ensures
        scan_long_body(s, k, opening, end).0 is String,
    decreases s.len() - k,
{
    if 0 <= k < s.len() {
        if s[k] == ']' {
            if opening > 0 {
                lemma_closing_level(s, k + 1, opening, 0, k + 1);
                let (k2, end2, closing) = scan_closing_level(s, k + 1, opening, 0, k + 1);
                if !(closing == opening && at(s, k2, ']')) {
                    lemma_long_body_kind(s, k2, opening, end2);
                }
            } else if !at(s, k + 1, ']') {
                lemma_long_body_kind(s, k + 1, opening, k + 1);
            }
        } else {
            lemma_long_body_kind(s, k + 1, opening, k + 1);
        }
    }
}

proof fn lemma_long_level_kind(s: Seq<char>, start: int, k: int, opening: nat)
    requires
        0 <= k,
    ensures
        !(scan_long_level(s, start, k, opening).0 is Identifier),
    decreases s.len() - k,
{
    if 0 <= k < s.len() {
        if s[k] == '=' {
            lemma_long_level_kind(s, start, k + 1, opening + 1);
        } else if s[k] == '[' {
            lemma_long_body_kind(s, k, opening, start);
        }
    } else {
        lemma_long_body_kind(s, k, opening, start);
    }
}

proof fn lemma_line_comment_kind(s: Seq<char>, m: int, end: int)
    ensures
        scan_line_comment(s, m, end).0 is Comment,
    decreases s.len() - m,
{
    if 0 <= m < s.len() && s[m] != '\r' && s[m] != '\n' {
        lemma_line_comment_kind(s, m + 1, m + 1);
    }
}

proof fn lemma_long_bracket_kind(s: Seq<char>, start: int, j: int)
    requires
        0 <= j,
    ensures
        scan_long_bracket(s, start, j) matches Some(r) ==> !(r.0 is Identifier),
{
    if 0 <= j < s.len() {
        if s[j] == '=' {
            lemma_long_level_kind(s, start, j + 1, 1);
        } else if s[j] == '[' {
            lemma_long_body_kind(s, j + 1, 0, start);
        }
    }
}

/// An identifier's text ends where the next token starts.
pub proof fn lemma_identifier_end(s: Seq<char>, i: int)
    requires
        0 <= i < s.len(),
        spec_scan(s, i).0 is Identifier,
    ensures
        spec_scan(s, i).1 == spec_scan(s, i).2,
{
    let c = s[i];
    let j = i + 1;
    if c == '.' {
        if !at(s, j, '.') && 0 <= j < s.len() && is_digit(s[j]) {
            lemma_number_rest_kind(s, j, token_modifier::Number::Decimal, token_validity::Number::Valid, j + 1);
        }
    } else if c == '[' {
        if at(s, j, '[') || at(s, j, '=') {
            lemma_long_bracket_kind(s, i, j);
        }
    } else if c == '-' {
        if at(s, j, '-') {
            let k = j + 1;
            if 0 <= k < s.len() {
                if s[k] == '[' {
                    lemma_long_bracket_kind(s, k, k + 1);
                    match scan_long_bracket(s, k, k + 1) {
                        Some((kind, e, nx)) => {
                            lemma_line_comment_kind(s, nx, k + 1);
                        },
                        None => {
                            lemma_line_comment_kind(s, k + 1, k + 1);
                        },
                    }
                } else {
                    lemma_line_comment_kind(s, k, k + 1);
                }
            }
        }
    } else if is_digit(c) {
        let valid = token_validity::Number::Valid;
        if c == '0' && at(s, j, 'x') {
            lemma_number_rest_kind(s, j + 1, token_modifier::Number::Hex, valid, j);
        } else {
            lemma_number_rest_kind(s, j, token_modifier::Number::Integer, valid, j);
        }
    } else if c == '"' || c == '\'' {
        lemma_quoted_rest_kind(s, c, quote_modifier(c), j, j, false);
    }
}

/// The tokens of a text come in order: each starts after the one before,
/// ends at or after its start, and lies within the text.
pub proof fn law_tokens_in_order(s: Seq<char>)
    requires
        byte_length(s) <= usize::MAX,
    ensures
        forall|a: int, b: int|
            0 <= a < b < tokens_from(s, 0).len() ==> (#[trigger] tokens_from(s, 0)[a]).start
                < (#[trigger] tokens_from(s, 0)[b]).start,
        forall|a: int|
            0 <= a < tokens_from(s, 0).len() ==> (#[trigger] tokens_from(s, 0)[a]).start
                <= tokens_from(s, 0)[a].end <= byte_length(s),
{
    lemma_tokens_from_order(s, 0);
}

/// Where every token ends where the next one begins (no token leaves
/// characters it looked at for the next one), the tokens tile the text: there
/// are none exactly when the text is empty, the first starts at byte 0, each
/// ends where the next starts, and the last ends at the text's byte length.
pub proof fn law_tokens_tile(s: Seq<char>)
    requires
        forall|i: int| 0 <= i < s.len() ==> #[trigger] spec_scan(s, i).1 == spec_scan(s, i).2,
    ensures
        (tokens_from(s, 0).len() == 0) == (s.len() == 0),
        tokens_from(s, 0).len() > 0 ==> tokens_from(s, 0)[0].start == 0
            && tokens_from(s, 0).last().end == byte_length(s) as usize,
        forall|a: int|
            0 <= a < tokens_from(s, 0).len() - 1 ==> (#[trigger] tokens_from(s, 0)[a]).end
                == tokens_from(s, 0)[a + 1].start,
{
    lemma_tokens_tile_from(s, 0);
}

/// The operator and bracket tokens: each of `( ) { } ] + * / % ; : , # ^`
/// and a line break is a token of one character of its own kind; `=`, `<`,
/// `>` and `~` take the `=` that follows into `==`, `<=`, `>=` and `~=`, and
/// alone are `=`, `<`, `>` and an invalid token. Each such token ends where
/// the next one begins.
pub proof fn law_operator_tokens(s: Seq<char>, i: int)
    requires
        0 <= i < s.len(),
    ensures
        s[i] == '(' ==> spec_scan(s, i) == (TokenKind::LeftBracket, i + 1, i + 1),
        s[i] == ')' ==> spec_scan(s, i) == (TokenKind::RightBracket, i + 1, i + 1),
        s[i] == '{' ==> spec_scan(s, i) == (TokenKind::LeftCurlyBracket, i + 1, i + 1),
        s[i] == '}' ==> spec_scan(s, i) == (TokenKind::RightCurlyBracket, i + 1, i + 1),
        s[i] == ']' ==> spec_scan(s, i) == (TokenKind::RightSquareBracket, i + 1, i + 1),
        s[i] == '+' ==> spec_scan(s, i) == (TokenKind::Plus, i + 1, i + 1),
        s[i] == '*' ==> spec_scan(s, i) == (TokenKind::Asterisk, i + 1, i + 1),
        s[i] == '/' ==> spec_scan(s, i) == (TokenKind::Slash, i + 1, i + 1),
        s[i] == '%' ==> spec_scan(s, i) == (TokenKind::Modulo, i + 1, i + 1),
        s[i] == ';' ==> spec_scan(s, i) == (TokenKind::Semicolon, i + 1, i + 1),
        s[i] == ':' ==> spec_scan(s, i) == (TokenKind::Colon, i + 1, i + 1),
        s[i] == ',' ==> spec_scan(s, i) == (TokenKind::Comma, i + 1, i + 1),
        s[i] == '#' ==> spec_scan(s, i) == (TokenKind::Hash, i + 1, i + 1),
        s[i] == '^' ==> spec_scan(s, i) == (TokenKind::Hat, i + 1, i + 1),
        s[i] == '\n' ==> spec_scan(s, i) == (TokenKind::Newline, i + 1, i + 1),
        s[i] == '=' ==> spec_scan(s, i) == if at(s, i + 1, '=') {
            (TokenKind::EqualsBoolean, i + 2, i + 2)
        } else {
            (TokenKind::Assign, i + 1, i + 1)
        },
        s[i] == '<' ==> spec_scan(s, i) == if at(s, i + 1, '=') {
            (TokenKind::LessThanOrEquals, i + 2, i + 2)
        } else {
            (TokenKind::LessThan, i + 1, i + 1)
        },
        s[i] == '>' ==> spec_scan(s, i) == if at(s, i + 1, '=') {
            (TokenKind::GreaterThanOrEquals, i + 2, i + 2)
        } else {
            (TokenKind::GreaterThan, i + 1, i + 1)
        },
        s[i] == '~' ==> spec_scan(s, i) == if at(s, i + 1, '=') {
            (TokenKind::NotEqualsBoolean, i + 2, i + 2)
        } else {
            (TokenKind::Invalid, i + 1, i + 1)
        },
{
}

/// The characters of a text whose tokens are plain: ASCII letters other than
/// `e`, `E`, `x` and `X`, digits, `_`, spaces, line breaks, and the brackets
/// and operators that make tokens of their own.
pub open spec fn plain_char(c: char) -> bool {
    ||| ('a' <= c && c <= 'z' && c != 'e' && c != 'x')
    ||| ('A' <= c && c <= 'Z' && c != 'E' && c != 'X')
    ||| is_digit(c)
    ||| c == '_' || c == ' ' || c == '\n'
    ||| c == '(' || c == ')' || c == '{' || c == '}' || c == ']'
    ||| c == '+' || c == '*' || c == '/' || c == '%' || c == ';' || c == ':' || c == ','
    ||| c == '#' || c == '^' || c == '=' || c == '<' || c == '>' || c == '~' || c == '.'
}

/// The tokens of a text of plain characters, with no `.` right before a
/// digit, tile it: there are none exactly when the text is empty, each is
/// non-empty, the first starts at byte 0, each ends where the next starts, and
/// the last ends at the text's byte length.
#[verifier::rlimit(100)]
pub proof fn law_plain_tokens_tile(s: Seq<char>)
    requires
        byte_length(s) <= usize::MAX,
        forall|k: int| 0 <= k < s.len() ==> plain_char(#[trigger] s[k]),
        forall|k: int| 0 <= k < s.len() - 1 ==> !(#[trigger] s[k] == '.' && is_digit(s[k + 1])),
    ensures
        (tokens_from(s, 0).len() == 0) == (s.len() == 0),
        tokens_from(s, 0).len() > 0 ==> tokens_from(s, 0)[0].start == 0
            && tokens_from(s, 0).last().end == byte_length(s) as usize,
        forall|a: int|
            0 <= a < tokens_from(s, 0).len() ==> (#[trigger] tokens_from(s, 0)[a]).start
                < tokens_from(s, 0)[a].end,
        forall|a: int|
            0 <= a < tokens_from(s, 0).len() - 1 ==> (#[trigger] tokens_from(s, 0)[a]).end
                == tokens_from(s, 0)[a + 1].start,
{
    lemma_plain_scans(s);
    law_tokens_tile(s);
    lemma_all_nonempty(s);
}

proof fn lemma_plain_scans(s: Seq<char>)
    requires
        forall|k: int| 0 <= k < s.len() ==> plain_char(#[trigger] s[k]),
        forall|k: int| 0 <= k < s.len() - 1 ==> !(#[trigger] s[k] == '.' && is_digit(s[k + 1])),
    ensures
        forall|i: int| 0 <= i < s.len() ==> #[trigger] spec_scan(s, i).1 == spec_scan(s, i).2,
{
    assert forall|i: int| 0 <= i < s.len() implies #[trigger] spec_scan(s, i).1 == spec_scan(s, i).2 by {
        lemma_plain_scan(s, i);
    }
}

proof fn lemma_all_nonempty(s: Seq<char>)
    requires
        byte_length(s) <= usize::MAX,
        forall|k: int| 0 <= k < s.len() ==> #[trigger] spec_scan(s, k).1 == spec_scan(s, k).2,
    ensures
        forall|a: int|
            0 <= a < tokens_from(s, 0).len() ==> (#[trigger] tokens_from(s, 0)[a]).start
                < tokens_from(s, 0)[a].end,
{
    assert forall|a: int| 0 <= a < tokens_from(s, 0).len() implies (#[trigger] tokens_from(s, 0)[a]).start
        < tokens_from(s, 0)[a].end by {
        lemma_tokens_nonempty(s, 0, a);
    }
}

/// A token of a text that tiles is not empty.
proof fn lemma_tokens_nonempty(s: Seq<char>, i: int, a: int)
    requires
        0 <= i <= s.len(),
        byte_length(s) <= usize::MAX,
        forall|k: int| 0 <= k < s.len() ==> #[trigger] spec_scan(s, k).1 == spec_scan(s, k).2,
        0 <= a < tokens_from(s, i).len(),
    ensures
        tokens_from(s, i)[a].start < tokens_from(s, i)[a].end,
    decreases s.len() - i,
{
    lemma_scan_bounds(s, i);
    let n = next_index(s, i);
    assert(spec_scan(s, i).1 == n);
    let rest = tokens_from(s, n);
    assert(tokens_from(s, i) == seq![token_at(s, i)] + rest);
    if a == 0 {
        lemma_byte_offset_mono(s, i, n);
        lemma_byte_offset_mono(s, n, s.len() as int);
        lemma_byte_offset_mono(s, 0, i);
    } else {
        assert(tokens_from(s, i)[a] == rest[a - 1]);
        lemma_tokens_nonempty(s, n, a - 1);
    }
}

/// A number's digits and letters, none of them an exponent mark, end where
/// the next token begins.
proof fn lemma_number_rest_tiles(
    s: Seq<char>,
    k: int,
    m: token_modifier::Number,
    v: token_validity::Number,
    end: int,
)
    requires
        0 <= k,
        end == k,
        forall|i: int| k <= i < s.len() ==> #[trigger] s[i] != 'e' && s[i] != 'E',
    ensures
        scan_number_rest(s, k, m, v, end).1 == scan_number_rest(s, k, m, v, end).2,
    decreases s.len() - k,
{
    if 0 <= k < s.len() && (alphanumeric(s[k]) || s[k] == '.') {
        let ch = s[k];
        let bad = token_validity::Number::Invalid;
        match m {
            token_modifier::Number::Hex => {
                lemma_number_rest_tiles(s, k + 1, m, if !spec_is_hex_digit(ch) { bad } else { v }, k + 1);
            },
            token_modifier::Number::Integer => {
                if ch == '.' {
                    lemma_number_rest_tiles(s, k + 1, token_modifier::Number::Decimal, v, k + 1);
                } else {
                    lemma_number_rest_tiles(s, k + 1, m, if !numeric(ch) { bad } else { v }, k + 1);
                }
            },
            token_modifier::Number::Decimal => {
                lemma_number_rest_tiles(s, k + 1, m, if !numeric(ch) { bad } else { v }, k + 1);
            },
            token_modifier::Number::Exponential => {
                lemma_number_rest_tiles(s, k + 1, m, if !numeric(ch) { bad } else { v }, k + 1);
            },
        }
    }
}

/// Each token of a plain text ends where the next one begins.
#[verifier::rlimit(80)]
proof fn lemma_plain_scan(s: Seq<char>, i: int)
    requires
        0 <= i < s.len(),
        forall|k: int| 0 <= k < s.len() ==> plain_char(#[trigger] s[k]),
        forall|k: int| 0 <= k < s.len() - 1 ==> !(#[trigger] s[k] == '.' && is_digit(s[k + 1])),
    ensures
        spec_scan(s, i).1 == spec_scan(s, i).2,
{
    let c = s[i];
    let j = i + 1;
    assert(plain_char(c));
    assert forall|k: int| j <= k < s.len() implies #[trigger] s[k] != 'e' && s[k] != 'E' by {
        assert(plain_char(s[k]));
    }
    if is_digit(c) {
        if 0 <= j < s.len() {
            assert(plain_char(s[j]));
        }
        lemma_number_rest_tiles(s, j, token_modifier::Number::Integer, token_validity::Number::Valid, j);
    } else if c == '.' {
        if 0 <= j < s.len() {
            assert(!(s[i] == '.' && is_digit(s[i + 1])));
        }
    }
}

#[verifier::rlimit(80)]
proof fn lemma_tokens_tile_from(s: Seq<char>, i: int)
    requires
        0 <= i <= s.len(),
        forall|k: int| 0 <= k < s.len() ==> #[trigger] spec_scan(s, k).1 == spec_scan(s, k).2,
    ensures
        (tokens_from(s, i).len() == 0) == (i == s.len()),
        tokens_from(s, i).len() > 0 ==> tokens_from(s, i)[0].start == byte_offset(s, i) as usize
            && tokens_from(s, i).last().end == byte_length(s) as usize,
        forall|a: int|
            0 <= a < tokens_from(s, i).len() - 1 ==> (#[trigger] tokens_from(s, i)[a]).end
                == tokens_from(s, i)[a + 1].start,
    decreases s.len() - i,
{
    let toks = tokens_from(s, i);
    if i < s.len() {
        lemma_scan_bounds(s, i);
        let n = next_index(s, i);
        assert(spec_scan(s, i).1 == n);
        lemma_tokens_tile_from(s, n);
        let rest = tokens_from(s, n);
        assert(toks == seq![token_at(s, i)] + rest);
        if rest.len() == 0 {
            assert(n == s.len());
        } else {
            assert(toks.last() == rest.last());
        }
        assert forall|a: int| 0 <= a < toks.len() - 1 implies (#[trigger] toks[a]).end == toks[a + 1].start by {
            assert(toks[a + 1] == rest[a]);
            if a > 0 {
                assert(toks[a] == rest[a - 1]);
            }
        }
    }
}

proof fn lemma_tokens_from_order(s: Seq<char>, i: int)
    requires
        0 <= i <= s.len(),
        byte_length(s) <= usize::MAX,
    ensures
        forall|a: int|
            0 <= a < tokens_from(s, i).len() ==> byte_offset(s, i) <= (
            #[trigger] tokens_from(s, i)[a]).start,
        forall|a: int, b: int|
            0 <= a < b < tokens_from(s, i).len() ==> (#[trigger] tokens_from(s, i)[a]).start
                < (#[trigger] tokens_from(s, i)[b]).start,
        forall|a: int|
            0 <= a < tokens_from(s, i).len() ==> (#[trigger] tokens_from(s, i)[a]).start
                <= tokens_from(s, i)[a].end <= byte_length(s),
    decreases s.len() - i,
{
    let toks = tokens_from(s, i);
    if 0 <= i < s.len() && i < next_index(s, i) <= s.len() {
        let n = next_index(s, i);
        lemma_tokens_from_order(s, n);
        lemma_scan_bounds(s, i);
        let e = spec_scan(s, i).1;
        let rest = tokens_from(s, n);
        lemma_byte_offset_mono(s, i, n);
        lemma_byte_offset_mono(s, i, e);
        lemma_byte_offset_mono(s, e, s.len() as int);
        lemma_byte_offset_mono(s, n, s.len() as int);
        lemma_byte_offset_mono(s, 0, i);
        assert(toks == seq![token_at(s, i)] + rest);
        assert(toks[0].start == byte_offset(s, i));
        assert(toks[0].end == byte_offset(s, e));
        assert forall|a: int| 0 <= a < toks.len() implies byte_offset(s, i) <= (#[trigger] toks[a]).start by {
            if a > 0 {
                assert(toks[a] == rest[a - 1]);
            }
        }
        assert forall|a: int, b: int| 0 <= a < b < toks.len() implies (#[trigger] toks[a]).start
            < (#[trigger] toks[b]).start by {
            assert(toks[b] == rest[b - 1]);
            if a > 0 {
                assert(toks[a] == rest[a - 1]);
            }
        }
        assert forall|a: int| 0 <= a < toks.len() implies (#[trigger] toks[a]).start <= toks[a].end
            <= byte_length(s) by {
            if a > 0 {
                assert(toks[a] == rest[a - 1]);
            }
        }
    }
}

} // verus!
