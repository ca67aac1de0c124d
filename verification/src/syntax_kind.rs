//! The token and node kinds of the table-driven Lua lexer, and how keywords
//! and operators map to them.
use vstd::prelude::*;
use crate::unicode::{same_chars, text_chars};

verus! {

#[allow(non_camel_case_types)]
#[derive(Copy, Clone, Debug, Eq, PartialEq, Structural, Ord, PartialOrd, Hash)]
pub enum SyntaxKind {
    NONE,
    WHITESPACE,
    PLUS,
    MINUS,
    ASTERISK,
    SLASH,
    MODULO,
    HAT,
    HASH,
    EQUALS,
    LESS_THAN,
    GREATER_THAN,
    L_BRACKET,
    R_BRACKET,
    L_CURLY_BRACKET,
    R_CURLY_BRACKET,
    L_SQUARE_BRACKET,
    R_SQUARE_BRACKET,
    SEMICOLON,
    COLON,
    COMMA,
    ONE_DOT,
    TILDE,
    EQUALS_BOOLEAN,
    NOT_EQUALS_BOOLEAN,
    LESS_THAN_EQUALS,
    GREATER_THAN_EQUALS,
    TWO_DOTS,
    THREE_DOTS,
    AND_KEYWORD,
    BREAK_KEYWORD,
    DO_KEYWORD,
    ELSE_KEYWORD,
    ELSEIF_KEYWORD,
    END_KEYWORD,
    FALSE_KEYWORD,
    FOR_KEYWORD,
    FUNCTION_KEYWORD,
    IF_KEYWORD,
    IN_KEYWORD,
    LOCAL_KEYWORD,
    NIL_KEYWORD,
    NOT_KEYWORD,
    OR_KEYWORD,
    REPEAT_KEYWORD,
    RETURN_KEYWORD,
    THEN_KEYWORD,
    TRUE_KEYWORD,
    UNTIL_KEYWORD,
    WHILE_KEYWORD,
    STRING,
    NUMBER,
    TABLE_INIT,
    CHUNK,
    STAT,
    VAR_LIST,
    EXP_LIST,
    ASSIGN_STAT,
    LOCAL_STAT,
    WHILE_STAT,
    REPEAT_STAT,
    IF_STAT,
    RETURN_STAT,
    BREAK_STAT,
    FOR_STAT_COUNTER,
    FOR_STAT_ITER,
    FUNCTION_CALL_STAT,
    EXP,
    PREFIX_EXP,
    FUNCTION_CALL,
    FUNCTION_CALL_STRING,
    FUNCTION_CALL_TABLE_INIT,
    FUNCTION,
    FUNCTION_BODY,
    GLOBAL_FUNCTION_STAT,
    LOCALE_FUNCTION_STAT,
    FUNCTION_NAME,
    NAME,
}

/// The raw value of a kind: its position in the declaration.
pub open spec fn spec_raw(k: SyntaxKind) -> u16 {
    match k {
        SyntaxKind::NONE => 0,
        SyntaxKind::WHITESPACE => 1,
        SyntaxKind::PLUS => 2,
        SyntaxKind::MINUS => 3,
        SyntaxKind::ASTERISK => 4,
        SyntaxKind::SLASH => 5,
        SyntaxKind::MODULO => 6,
        SyntaxKind::HAT => 7,
        SyntaxKind::HASH => 8,
        SyntaxKind::EQUALS => 9,
        SyntaxKind::LESS_THAN => 10,
        SyntaxKind::GREATER_THAN => 11,
        SyntaxKind::L_BRACKET => 12,
        SyntaxKind::R_BRACKET => 13,
        SyntaxKind::L_CURLY_BRACKET => 14,
        SyntaxKind::R_CURLY_BRACKET => 15,
        SyntaxKind::L_SQUARE_BRACKET => 16,
        SyntaxKind::R_SQUARE_BRACKET => 17,
        SyntaxKind::SEMICOLON => 18,
        SyntaxKind::COLON => 19,
        SyntaxKind::COMMA => 20,
        SyntaxKind::ONE_DOT => 21,
        SyntaxKind::TILDE => 22,
        SyntaxKind::EQUALS_BOOLEAN => 23,
        SyntaxKind::NOT_EQUALS_BOOLEAN => 24,
        SyntaxKind::LESS_THAN_EQUALS => 25,
        SyntaxKind::GREATER_THAN_EQUALS => 26,
        SyntaxKind::TWO_DOTS => 27,
        SyntaxKind::THREE_DOTS => 28,
        SyntaxKind::AND_KEYWORD => 29,
        SyntaxKind::BREAK_KEYWORD => 30,
        SyntaxKind::DO_KEYWORD => 31,
        SyntaxKind::ELSE_KEYWORD => 32,
        SyntaxKind::ELSEIF_KEYWORD => 33,
        SyntaxKind::END_KEYWORD => 34,
        SyntaxKind::FALSE_KEYWORD => 35,
        SyntaxKind::FOR_KEYWORD => 36,
        SyntaxKind::FUNCTION_KEYWORD => 37,
        SyntaxKind::IF_KEYWORD => 38,
        SyntaxKind::IN_KEYWORD => 39,
        SyntaxKind::LOCAL_KEYWORD => 40,
        SyntaxKind::NIL_KEYWORD => 41,
        SyntaxKind::NOT_KEYWORD => 42,
        SyntaxKind::OR_KEYWORD => 43,
        SyntaxKind::REPEAT_KEYWORD => 44,
        SyntaxKind::RETURN_KEYWORD => 45,
        SyntaxKind::THEN_KEYWORD => 46,
        SyntaxKind::TRUE_KEYWORD => 47,
        SyntaxKind::UNTIL_KEYWORD => 48,
        SyntaxKind::WHILE_KEYWORD => 49,
        SyntaxKind::STRING => 50,
        SyntaxKind::NUMBER => 51,
        SyntaxKind::TABLE_INIT => 52,
        SyntaxKind::CHUNK => 53,
        SyntaxKind::STAT => 54,
        SyntaxKind::VAR_LIST => 55,
        SyntaxKind::EXP_LIST => 56,
        SyntaxKind::ASSIGN_STAT => 57,
        SyntaxKind::LOCAL_STAT => 58,
        SyntaxKind::WHILE_STAT => 59,
        SyntaxKind::REPEAT_STAT => 60,
        SyntaxKind::IF_STAT => 61,
        SyntaxKind::RETURN_STAT => 62,
        SyntaxKind::BREAK_STAT => 63,
        SyntaxKind::FOR_STAT_COUNTER => 64,
        SyntaxKind::FOR_STAT_ITER => 65,
        SyntaxKind::FUNCTION_CALL_STAT => 66,
        SyntaxKind::EXP => 67,
        SyntaxKind::PREFIX_EXP => 68,
        SyntaxKind::FUNCTION_CALL => 69,
        SyntaxKind::FUNCTION_CALL_STRING => 70,
        SyntaxKind::FUNCTION_CALL_TABLE_INIT => 71,
        SyntaxKind::FUNCTION => 72,
        SyntaxKind::FUNCTION_BODY => 73,
        SyntaxKind::GLOBAL_FUNCTION_STAT => 74,
        SyntaxKind::LOCALE_FUNCTION_STAT => 75,
        SyntaxKind::FUNCTION_NAME => 76,
        SyntaxKind::NAME => 77,
    }
}

/// Different kinds have different raw values.
pub proof fn law_raw_injective(a: SyntaxKind, b: SyntaxKind)
    requires
        spec_raw(a) == spec_raw(b),
    ensures
        a == b,
{
}

/// The keywords.
pub open spec fn spec_is_keyword(k: SyntaxKind) -> bool {
    k is AND_KEYWORD
    || k is BREAK_KEYWORD
    || k is DO_KEYWORD
    || k is ELSE_KEYWORD
    || k is ELSEIF_KEYWORD
    || k is END_KEYWORD
    || k is FALSE_KEYWORD
    || k is FOR_KEYWORD
    || k is FUNCTION_KEYWORD
    || k is IF_KEYWORD
    || k is IN_KEYWORD
    || k is LOCAL_KEYWORD
    || k is NIL_KEYWORD
    || k is NOT_KEYWORD
    || k is OR_KEYWORD
    || k is REPEAT_KEYWORD
    || k is RETURN_KEYWORD
    || k is THEN_KEYWORD
    || k is TRUE_KEYWORD
    || k is UNTIL_KEYWORD
    || k is WHILE_KEYWORD
}

/// The single-character punctuation kinds.
pub open spec fn spec_is_punct(k: SyntaxKind) -> bool {
    k is PLUS
    || k is MINUS
    || k is ASTERISK
    || k is SLASH
    || k is MODULO
    || k is HAT
    || k is HASH
    || k is TILDE
    || k is LESS_THAN
    || k is GREATER_THAN
    || k is EQUALS
    || k is L_BRACKET
    || k is R_BRACKET
    || k is L_CURLY_BRACKET
    || k is R_CURLY_BRACKET
    || k is L_SQUARE_BRACKET
    || k is R_SQUARE_BRACKET
    || k is SEMICOLON
    || k is COLON
    || k is COMMA
    || k is ONE_DOT
}

/// The keyword that `s` spells, if it spells one.
pub open spec fn spec_from_keyword(s: Seq<char>) -> Option<SyntaxKind> {
    if s == seq!['a', 'n', 'd'] {
        Some(SyntaxKind::AND_KEYWORD)
    } else if s == seq!['b', 'r', 'e', 'a', 'k'] {
        Some(SyntaxKind::BREAK_KEYWORD)
    } else if s == seq!['d', 'o'] {
        Some(SyntaxKind::DO_KEYWORD)
    } else if s == seq!['e', 'l', 's', 'e'] {
        Some(SyntaxKind::ELSE_KEYWORD)
    } else if s == seq!['e', 'l', 's', 'e', 'i', 'f'] {
        Some(SyntaxKind::ELSEIF_KEYWORD)
    } else if s == seq!['e', 'n', 'd'] {
        Some(SyntaxKind::END_KEYWORD)
    } else if s == seq!['f', 'a', 'l', 's', 'e'] {
        Some(SyntaxKind::FALSE_KEYWORD)
    } else if s == seq!['f', 'o', 'r'] {
        Some(SyntaxKind::FOR_KEYWORD)
    } else if s == seq!['f', 'u', 'n', 'c', 't', 'i', 'o', 'n'] {
        Some(SyntaxKind::FUNCTION_KEYWORD)
    } else if s == seq!['i', 'f'] {
        Some(SyntaxKind::IF_KEYWORD)
    } else if s == seq!['i', 'n'] {
        Some(SyntaxKind::IN_KEYWORD)
    } else if s == seq!['l', 'o', 'c', 'a', 'l'] {
        Some(SyntaxKind::LOCAL_KEYWORD)
    } else if s == seq!['n', 'i', 'l'] {
        Some(SyntaxKind::NIL_KEYWORD)
    } else if s == seq!['n', 'o', 't'] {
        Some(SyntaxKind::NOT_KEYWORD)
    } else if s == seq!['o', 'r'] {
        Some(SyntaxKind::OR_KEYWORD)
    } else if s == seq!['r', 'e', 'p', 'e', 'a', 't'] {
        Some(SyntaxKind::REPEAT_KEYWORD)
    } else if s == seq!['r', 'e', 't', 'u', 'r', 'n'] {
        Some(SyntaxKind::RETURN_KEYWORD)
    } else if s == seq!['t', 'h', 'e', 'n'] {
        Some(SyntaxKind::THEN_KEYWORD)
    } else if s == seq!['t', 'r', 'u', 'e'] {
        Some(SyntaxKind::TRUE_KEYWORD)
    } else if s == seq!['u', 'n', 't', 'i', 'l'] {
        Some(SyntaxKind::UNTIL_KEYWORD)
    } else if s == seq!['w', 'h', 'i', 'l', 'e'] {
        Some(SyntaxKind::WHILE_KEYWORD)
    } else {
        None
    }
}

/// The punctuation kind of the one-character operator `s`, if it is one.
pub open spec fn spec_from_operator(s: Seq<char>) -> Option<SyntaxKind> {
    if s.len() != 1 {
        None
    } else {
        let c = s[0];
        if c == '+' {
            Some(SyntaxKind::PLUS)
        } else if c == '-' {
            Some(SyntaxKind::MINUS)
        } else if c == '*' {
            Some(SyntaxKind::ASTERISK)
        } else if c == '/' {
            Some(SyntaxKind::SLASH)
        } else if c == '%' {
            Some(SyntaxKind::MODULO)
        } else if c == '^' {
            Some(SyntaxKind::HAT)
        } else if c == '#' {
            Some(SyntaxKind::HASH)
        } else if c == '~' {
            Some(SyntaxKind::TILDE)
        } else if c == '<' {
            Some(SyntaxKind::LESS_THAN)
        } else if c == '>' {
            Some(SyntaxKind::GREATER_THAN)
        } else if c == '=' {
            Some(SyntaxKind::EQUALS)
        } else if c == '(' {
            Some(SyntaxKind::L_BRACKET)
        } else if c == ')' {
            Some(SyntaxKind::R_BRACKET)
        } else if c == '{' {
            Some(SyntaxKind::L_CURLY_BRACKET)
        } else if c == '}' {
            Some(SyntaxKind::R_CURLY_BRACKET)
        } else if c == '[' {
            Some(SyntaxKind::L_SQUARE_BRACKET)
        } else if c == ']' {
            Some(SyntaxKind::R_SQUARE_BRACKET)
        } else if c == ';' {
            Some(SyntaxKind::SEMICOLON)
        } else if c == ':' {
            Some(SyntaxKind::COLON)
        } else if c == ',' {
            Some(SyntaxKind::COMMA)
        } else if c == '.' {
            Some(SyntaxKind::ONE_DOT)
        } else {
            None
        }
    }
}

/// The kind that `s` names as a keyword, else as an operator, else `NONE`.
pub open spec fn spec_from_string(s: Seq<char>) -> SyntaxKind {
    match spec_from_keyword(s) {
        Some(k) => k,
        None => match spec_from_operator(s) {
            Some(k) => k,
            None => SyntaxKind::NONE,
        },
    }
}

fn keyword_of_chars(cs: &Vec<char>) -> (r: Option<SyntaxKind>)
    ensures
        r == spec_from_keyword(cs@),
{
    if same_chars(cs, &vec!['a', 'n', 'd']) {
        Some(SyntaxKind::AND_KEYWORD)
    } else if same_chars(cs, &vec!['b', 'r', 'e', 'a', 'k']) {
        Some(SyntaxKind::BREAK_KEYWORD)
    } else if same_chars(cs, &vec!['d', 'o']) {
        Some(SyntaxKind::DO_KEYWORD)
    } else if same_chars(cs, &vec!['e', 'l', 's', 'e']) {
        Some(SyntaxKind::ELSE_KEYWORD)
    } else if same_chars(cs, &vec!['e', 'l', 's', 'e', 'i', 'f']) {
        Some(SyntaxKind::ELSEIF_KEYWORD)
    } else if same_chars(cs, &vec!['e', 'n', 'd']) {
        Some(SyntaxKind::END_KEYWORD)
    } else if same_chars(cs, &vec!['f', 'a', 'l', 's', 'e']) {
        Some(SyntaxKind::FALSE_KEYWORD)
    } else if same_chars(cs, &vec!['f', 'o', 'r']) {
        Some(SyntaxKind::FOR_KEYWORD)
    } else if same_chars(cs, &vec!['f', 'u', 'n', 'c', 't', 'i', 'o', 'n']) {
        Some(SyntaxKind::FUNCTION_KEYWORD)
    } else if same_chars(cs, &vec!['i', 'f']) {
        Some(SyntaxKind::IF_KEYWORD)
    } else if same_chars(cs, &vec!['i', 'n']) {
        Some(SyntaxKind::IN_KEYWORD)
    } else if same_chars(cs, &vec!['l', 'o', 'c', 'a', 'l']) {
        Some(SyntaxKind::LOCAL_KEYWORD)
    } else if same_chars(cs, &vec!['n', 'i', 'l']) {
        Some(SyntaxKind::NIL_KEYWORD)
    } else if same_chars(cs, &vec!['n', 'o', 't']) {
        Some(SyntaxKind::NOT_KEYWORD)
    } else if same_chars(cs, &vec!['o', 'r']) {
        Some(SyntaxKind::OR_KEYWORD)
    } else if same_chars(cs, &vec!['r', 'e', 'p', 'e', 'a', 't']) {
        Some(SyntaxKind::REPEAT_KEYWORD)
    } else if same_chars(cs, &vec!['r', 'e', 't', 'u', 'r', 'n']) {
        Some(SyntaxKind::RETURN_KEYWORD)
    } else if same_chars(cs, &vec!['t', 'h', 'e', 'n']) {
        Some(SyntaxKind::THEN_KEYWORD)
    } else if same_chars(cs, &vec!['t', 'r', 'u', 'e']) {
        Some(SyntaxKind::TRUE_KEYWORD)
    } else if same_chars(cs, &vec!['u', 'n', 't', 'i', 'l']) {
        Some(SyntaxKind::UNTIL_KEYWORD)
    } else if same_chars(cs, &vec!['w', 'h', 'i', 'l', 'e']) {
        Some(SyntaxKind::WHILE_KEYWORD)
    } else {
        None
    }
}

fn operator_of_chars(cs: &Vec<char>) -> (r: Option<SyntaxKind>)
    ensures
        r == spec_from_operator(cs@),
{
    if cs.len() != 1 {
        return None;
    }
    let c = cs[0];
    if c == '+' {
        Some(SyntaxKind::PLUS)
    } else if c == '-' {
        Some(SyntaxKind::MINUS)
    } else if c == '*' {
        Some(SyntaxKind::ASTERISK)
    } else if c == '/' {
        Some(SyntaxKind::SLASH)
    } else if c == '%' {
        Some(SyntaxKind::MODULO)
    } else if c == '^' {
        Some(SyntaxKind::HAT)
    } else if c == '#' {
        Some(SyntaxKind::HASH)
    } else if c == '~' {
        Some(SyntaxKind::TILDE)
    } else if c == '<' {
        Some(SyntaxKind::LESS_THAN)
    } else if c == '>' {
        Some(SyntaxKind::GREATER_THAN)
    } else if c == '=' {
        Some(SyntaxKind::EQUALS)
    } else if c == '(' {
        Some(SyntaxKind::L_BRACKET)
    } else if c == ')' {
        Some(SyntaxKind::R_BRACKET)
    } else if c == '{' {
        Some(SyntaxKind::L_CURLY_BRACKET)
    } else if c == '}' {
        Some(SyntaxKind::R_CURLY_BRACKET)
    } else if c == '[' {
        Some(SyntaxKind::L_SQUARE_BRACKET)
    } else if c == ']' {
        Some(SyntaxKind::R_SQUARE_BRACKET)
    } else if c == ';' {
        Some(SyntaxKind::SEMICOLON)
    } else if c == ':' {
        Some(SyntaxKind::COLON)
    } else if c == ',' {
        Some(SyntaxKind::COMMA)
    } else if c == '.' {
        Some(SyntaxKind::ONE_DOT)
    } else {
        None
    }
}

impl SyntaxKind {
    pub fn is_keyword(self) -> (r: bool)
        ensures
            r == spec_is_keyword(self),
    {
        match self {
            SyntaxKind::AND_KEYWORD | SyntaxKind::BREAK_KEYWORD | SyntaxKind::DO_KEYWORD | SyntaxKind::ELSE_KEYWORD | SyntaxKind::ELSEIF_KEYWORD | SyntaxKind::END_KEYWORD | SyntaxKind::FALSE_KEYWORD | SyntaxKind::FOR_KEYWORD | SyntaxKind::FUNCTION_KEYWORD | SyntaxKind::IF_KEYWORD | SyntaxKind::IN_KEYWORD | SyntaxKind::LOCAL_KEYWORD | SyntaxKind::NIL_KEYWORD | SyntaxKind::NOT_KEYWORD | SyntaxKind::OR_KEYWORD | SyntaxKind::REPEAT_KEYWORD | SyntaxKind::RETURN_KEYWORD | SyntaxKind::THEN_KEYWORD | SyntaxKind::TRUE_KEYWORD | SyntaxKind::UNTIL_KEYWORD | SyntaxKind::WHILE_KEYWORD => true,
            _ => false,
        }
    }

    pub fn is_punct(self) -> (r: bool)
        ensures
            r == spec_is_punct(self),
    {
        match self {
            SyntaxKind::PLUS | SyntaxKind::MINUS | SyntaxKind::ASTERISK | SyntaxKind::SLASH | SyntaxKind::MODULO | SyntaxKind::HAT | SyntaxKind::HASH | SyntaxKind::TILDE | SyntaxKind::LESS_THAN | SyntaxKind::GREATER_THAN | SyntaxKind::EQUALS | SyntaxKind::L_BRACKET | SyntaxKind::R_BRACKET | SyntaxKind::L_CURLY_BRACKET | SyntaxKind::R_CURLY_BRACKET | SyntaxKind::L_SQUARE_BRACKET | SyntaxKind::R_SQUARE_BRACKET | SyntaxKind::SEMICOLON | SyntaxKind::COLON | SyntaxKind::COMMA | SyntaxKind::ONE_DOT => true,
            _ => false,
        }
    }

    pub fn is_literal(self) -> (r: bool)
        ensures
            r == (self is STRING || self is NUMBER),
    {
        match self {
            SyntaxKind::STRING | SyntaxKind::NUMBER => true,
            _ => false,
        }
    }

    /// The keyword kind that `kw` spells, or `None`.
    pub fn from_keyword(kw: &str) -> (r: Option<SyntaxKind>)
        ensures
            r == spec_from_keyword(kw@),
    {
        keyword_of_chars(&text_chars(kw))
    }

    /// The kind of the one-character operator `op`, or `None`.
    pub fn from_operator(op: &str) -> (r: Option<SyntaxKind>)
        ensures
            r == spec_from_operator(op@),
    {
        operator_of_chars(&text_chars(op))
    }

    /// The raw value of the kind, as a token or node kind number.
    pub fn raw(self) -> (r: u16)
        ensures
            r == spec_raw(self),
    {
        match self {
            SyntaxKind::NONE => 0,
            SyntaxKind::WHITESPACE => 1,
            SyntaxKind::PLUS => 2,
            SyntaxKind::MINUS => 3,
            SyntaxKind::ASTERISK => 4,
            SyntaxKind::SLASH => 5,
            SyntaxKind::MODULO => 6,
            SyntaxKind::HAT => 7,
            SyntaxKind::HASH => 8,
            SyntaxKind::EQUALS => 9,
            SyntaxKind::LESS_THAN => 10,
            SyntaxKind::GREATER_THAN => 11,
            SyntaxKind::L_BRACKET => 12,
            SyntaxKind::R_BRACKET => 13,
            SyntaxKind::L_CURLY_BRACKET => 14,
            SyntaxKind::R_CURLY_BRACKET => 15,
            SyntaxKind::L_SQUARE_BRACKET => 16,
            SyntaxKind::R_SQUARE_BRACKET => 17,
            SyntaxKind::SEMICOLON => 18,
            SyntaxKind::COLON => 19,
            SyntaxKind::COMMA => 20,
            SyntaxKind::ONE_DOT => 21,
            SyntaxKind::TILDE => 22,
            SyntaxKind::EQUALS_BOOLEAN => 23,
            SyntaxKind::NOT_EQUALS_BOOLEAN => 24,
            SyntaxKind::LESS_THAN_EQUALS => 25,
            SyntaxKind::GREATER_THAN_EQUALS => 26,
            SyntaxKind::TWO_DOTS => 27,
            SyntaxKind::THREE_DOTS => 28,
            SyntaxKind::AND_KEYWORD => 29,
            SyntaxKind::BREAK_KEYWORD => 30,
            SyntaxKind::DO_KEYWORD => 31,
            SyntaxKind::ELSE_KEYWORD => 32,
            SyntaxKind::ELSEIF_KEYWORD => 33,
            SyntaxKind::END_KEYWORD => 34,
            SyntaxKind::FALSE_KEYWORD => 35,
            SyntaxKind::FOR_KEYWORD => 36,
            SyntaxKind::FUNCTION_KEYWORD => 37,
            SyntaxKind::IF_KEYWORD => 38,
            SyntaxKind::IN_KEYWORD => 39,
            SyntaxKind::LOCAL_KEYWORD => 40,
            SyntaxKind::NIL_KEYWORD => 41,
            SyntaxKind::NOT_KEYWORD => 42,
            SyntaxKind::OR_KEYWORD => 43,
            SyntaxKind::REPEAT_KEYWORD => 44,
            SyntaxKind::RETURN_KEYWORD => 45,
            SyntaxKind::THEN_KEYWORD => 46,
            SyntaxKind::TRUE_KEYWORD => 47,
            SyntaxKind::UNTIL_KEYWORD => 48,
            SyntaxKind::WHILE_KEYWORD => 49,
            SyntaxKind::STRING => 50,
            SyntaxKind::NUMBER => 51,
            SyntaxKind::TABLE_INIT => 52,
            SyntaxKind::CHUNK => 53,
            SyntaxKind::STAT => 54,
            SyntaxKind::VAR_LIST => 55,
            SyntaxKind::EXP_LIST => 56,
            SyntaxKind::ASSIGN_STAT => 57,
            SyntaxKind::LOCAL_STAT => 58,
            SyntaxKind::WHILE_STAT => 59,
            SyntaxKind::REPEAT_STAT => 60,
            SyntaxKind::IF_STAT => 61,
            SyntaxKind::RETURN_STAT => 62,
            SyntaxKind::BREAK_STAT => 63,
            SyntaxKind::FOR_STAT_COUNTER => 64,
            SyntaxKind::FOR_STAT_ITER => 65,
            SyntaxKind::FUNCTION_CALL_STAT => 66,
            SyntaxKind::EXP => 67,
            SyntaxKind::PREFIX_EXP => 68,
            SyntaxKind::FUNCTION_CALL => 69,
            SyntaxKind::FUNCTION_CALL_STRING => 70,
            SyntaxKind::FUNCTION_CALL_TABLE_INIT => 71,
            SyntaxKind::FUNCTION => 72,
            SyntaxKind::FUNCTION_BODY => 73,
            SyntaxKind::GLOBAL_FUNCTION_STAT => 74,
            SyntaxKind::LOCALE_FUNCTION_STAT => 75,
            SyntaxKind::FUNCTION_NAME => 76,
            SyntaxKind::NAME => 77,
        }
    }
}

/// The kind that `s` names: a keyword first, then an operator, else `NONE`.
pub fn from_string(s: &str) -> (k: SyntaxKind)
    ensures
        k == spec_from_string(s@),
{
    match SyntaxKind::from_keyword(s) {
        Some(k) => k,
        None => match SyntaxKind::from_operator(s) {
            Some(k) => k,
            None => SyntaxKind::NONE,
        },
    }
}

/// No kind is both a keyword and a punctuation mark.
pub proof fn lemma_keyword_not_punct(k: SyntaxKind)
    ensures
        !(spec_is_keyword(k) && spec_is_punct(k)),
{
}

/// What `from_keyword` gives is a keyword, and what `from_operator` gives is
/// punctuation.
pub proof fn lemma_from_kinds(s: Seq<char>)
    ensures
        spec_from_keyword(s) matches Some(k) ==> spec_is_keyword(k),
        spec_from_operator(s) matches Some(k) ==> spec_is_punct(k),
{
}

} // verus!
