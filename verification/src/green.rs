//! The node and token kinds of the first tree generator, which read the
//! tokens of `LuaLexer`, with the errors it could report.
use vstd::prelude::*;
use crate::unicode::{same_chars, text_chars};

verus! {

#[allow(non_camel_case_types)]
#[derive(Debug, Clone, Copy, PartialEq, Eq, Structural, PartialOrd, Ord, Hash)]
pub enum SyntaxKind {
    Invalid,
    Whitespace,
    Newline,
    Comment,
    Identifier,
    Name,
    String,
    Number,
    EoF,
    Dot,
    DoubleDot,
    TripleDot,
    LeftBracket,
    RightBracket,
    LeftCurlyBracket,
    RightCurlyBracket,
    LeftSquareBracket,
    RightSquareBracket,
    Minus,
    Plus,
    Asterisk,
    Slash,
    Modulo,
    Semicolon,
    Colon,
    EqualsBoolean,
    NotEqualsBoolean,
    LessThanOrEquals,
    GreaterThanOrEquals,
    LessThan,
    GreaterThan,
    Assign,
    Comma,
    Hash,
    Hat,
    Block,
    FunctionDefinition,
    FunctionCall,
    DoBlock,
    WhileLoop,
    ForLoop,
    Statement,
    Assignment,
    ReturnStatement,
    VarList,
    VariableName,
    ExpList,
    Expression,
    GroupedExpression,
    PrefixExpression,
    ArgumentList,
    ParameterList,
    Parameter,
    ParameterVarArgs,
    TableConstructor,
    FieldList,
    AndKeyword,
    BreakKeyword,
    DoKeyword,
    ElseKeyword,
    ElseIfKeyword,
    EndKeyword,
    FalseKeyword,
    ForKeyword,
    FunctionKeyword,
    IfKeyword,
    InKeyword,
    LocalKeyword,
    NilKeyword,
    NotKeyword,
    OrKeyword,
    RepeatKeyword,
    ReturnKeyword,
    ThenKeyword,
    TrueKeyword,
    UntilKeyword,
    WhileKeyword,
    __LAST,
}

/// The raw value of a kind: its position in the declaration.
pub open spec fn spec_raw(k: SyntaxKind) -> u16 {
    match k {
        SyntaxKind::Invalid => 0,
        SyntaxKind::Whitespace => 1,
        SyntaxKind::Newline => 2,
        SyntaxKind::Comment => 3,
        SyntaxKind::Identifier => 4,
        SyntaxKind::Name => 5,
        SyntaxKind::String => 6,
        SyntaxKind::Number => 7,
        SyntaxKind::EoF => 8,
        SyntaxKind::Dot => 9,
        SyntaxKind::DoubleDot => 10,
        SyntaxKind::TripleDot => 11,
        SyntaxKind::LeftBracket => 12,
        SyntaxKind::RightBracket => 13,
        SyntaxKind::LeftCurlyBracket => 14,
        SyntaxKind::RightCurlyBracket => 15,
        SyntaxKind::LeftSquareBracket => 16,
        SyntaxKind::RightSquareBracket => 17,
        SyntaxKind::Minus => 18,
        SyntaxKind::Plus => 19,
        SyntaxKind::Asterisk => 20,
        SyntaxKind::Slash => 21,
        SyntaxKind::Modulo => 22,
        SyntaxKind::Semicolon => 23,
        SyntaxKind::Colon => 24,
        SyntaxKind::EqualsBoolean => 25,
        SyntaxKind::NotEqualsBoolean => 26,
        SyntaxKind::LessThanOrEquals => 27,
        SyntaxKind::GreaterThanOrEquals => 28,
        SyntaxKind::LessThan => 29,
        SyntaxKind::GreaterThan => 30,
        SyntaxKind::Assign => 31,
        SyntaxKind::Comma => 32,
        SyntaxKind::Hash => 33,
        SyntaxKind::Hat => 34,
        SyntaxKind::Block => 35,
        SyntaxKind::FunctionDefinition => 36,
        SyntaxKind::FunctionCall => 37,
        SyntaxKind::DoBlock => 38,
        SyntaxKind::WhileLoop => 39,
        SyntaxKind::ForLoop => 40,
        SyntaxKind::Statement => 41,
        SyntaxKind::Assignment => 42,
        SyntaxKind::ReturnStatement => 43,
        SyntaxKind::VarList => 44,
        SyntaxKind::VariableName => 45,
        SyntaxKind::ExpList => 46,
        SyntaxKind::Expression => 47,
        SyntaxKind::GroupedExpression => 48,
        SyntaxKind::PrefixExpression => 49,
        SyntaxKind::ArgumentList => 50,
        SyntaxKind::ParameterList => 51,
        SyntaxKind::Parameter => 52,
        SyntaxKind::ParameterVarArgs => 53,
        SyntaxKind::TableConstructor => 54,
        SyntaxKind::FieldList => 55,
        SyntaxKind::AndKeyword => 56,
        SyntaxKind::BreakKeyword => 57,
        SyntaxKind::DoKeyword => 58,
        SyntaxKind::ElseKeyword => 59,
        SyntaxKind::ElseIfKeyword => 60,
        SyntaxKind::EndKeyword => 61,
        SyntaxKind::FalseKeyword => 62,
        SyntaxKind::ForKeyword => 63,
        SyntaxKind::FunctionKeyword => 64,
        SyntaxKind::IfKeyword => 65,
        SyntaxKind::InKeyword => 66,
        SyntaxKind::LocalKeyword => 67,
        SyntaxKind::NilKeyword => 68,
        SyntaxKind::NotKeyword => 69,
        SyntaxKind::OrKeyword => 70,
        SyntaxKind::RepeatKeyword => 71,
        SyntaxKind::ReturnKeyword => 72,
        SyntaxKind::ThenKeyword => 73,
        SyntaxKind::TrueKeyword => 74,
        SyntaxKind::UntilKeyword => 75,
        SyntaxKind::WhileKeyword => 76,
        SyntaxKind::__LAST => 77,
    }
}

/// The raw value of a kind, as rowan stores it.
pub fn to_raw(s: SyntaxKind) -> (r: u16)
    ensures
        r == spec_raw(s),
{
    match s {
        SyntaxKind::Invalid => 0,
        SyntaxKind::Whitespace => 1,
        SyntaxKind::Newline => 2,
        SyntaxKind::Comment => 3,
        SyntaxKind::Identifier => 4,
        SyntaxKind::Name => 5,
        SyntaxKind::String => 6,
        SyntaxKind::Number => 7,
        SyntaxKind::EoF => 8,
        SyntaxKind::Dot => 9,
        SyntaxKind::DoubleDot => 10,
        SyntaxKind::TripleDot => 11,
        SyntaxKind::LeftBracket => 12,
        SyntaxKind::RightBracket => 13,
        SyntaxKind::LeftCurlyBracket => 14,
        SyntaxKind::RightCurlyBracket => 15,
        SyntaxKind::LeftSquareBracket => 16,
        SyntaxKind::RightSquareBracket => 17,
        SyntaxKind::Minus => 18,
        SyntaxKind::Plus => 19,
        SyntaxKind::Asterisk => 20,
        SyntaxKind::Slash => 21,
        SyntaxKind::Modulo => 22,
        SyntaxKind::Semicolon => 23,
        SyntaxKind::Colon => 24,
        SyntaxKind::EqualsBoolean => 25,
        SyntaxKind::NotEqualsBoolean => 26,
        SyntaxKind::LessThanOrEquals => 27,
        SyntaxKind::GreaterThanOrEquals => 28,
        SyntaxKind::LessThan => 29,
        SyntaxKind::GreaterThan => 30,
        SyntaxKind::Assign => 31,
        SyntaxKind::Comma => 32,
        SyntaxKind::Hash => 33,
        SyntaxKind::Hat => 34,
        SyntaxKind::Block => 35,
        SyntaxKind::FunctionDefinition => 36,
        SyntaxKind::FunctionCall => 37,
        SyntaxKind::DoBlock => 38,
        SyntaxKind::WhileLoop => 39,
        SyntaxKind::ForLoop => 40,
        SyntaxKind::Statement => 41,
        SyntaxKind::Assignment => 42,
        SyntaxKind::ReturnStatement => 43,
        SyntaxKind::VarList => 44,
        SyntaxKind::VariableName => 45,
        SyntaxKind::ExpList => 46,
        SyntaxKind::Expression => 47,
        SyntaxKind::GroupedExpression => 48,
        SyntaxKind::PrefixExpression => 49,
        SyntaxKind::ArgumentList => 50,
        SyntaxKind::ParameterList => 51,
        SyntaxKind::Parameter => 52,
        SyntaxKind::ParameterVarArgs => 53,
        SyntaxKind::TableConstructor => 54,
        SyntaxKind::FieldList => 55,
        SyntaxKind::AndKeyword => 56,
        SyntaxKind::BreakKeyword => 57,
        SyntaxKind::DoKeyword => 58,
        SyntaxKind::ElseKeyword => 59,
        SyntaxKind::ElseIfKeyword => 60,
        SyntaxKind::EndKeyword => 61,
        SyntaxKind::FalseKeyword => 62,
        SyntaxKind::ForKeyword => 63,
        SyntaxKind::FunctionKeyword => 64,
        SyntaxKind::IfKeyword => 65,
        SyntaxKind::InKeyword => 66,
        SyntaxKind::LocalKeyword => 67,
        SyntaxKind::NilKeyword => 68,
        SyntaxKind::NotKeyword => 69,
        SyntaxKind::OrKeyword => 70,
        SyntaxKind::RepeatKeyword => 71,
        SyntaxKind::ReturnKeyword => 72,
        SyntaxKind::ThenKeyword => 73,
        SyntaxKind::TrueKeyword => 74,
        SyntaxKind::UntilKeyword => 75,
        SyntaxKind::WhileKeyword => 76,
        SyntaxKind::__LAST => 77,
    }
}

/// Different kinds have different raw values.
pub proof fn law_raw_injective(a: SyntaxKind, b: SyntaxKind)
    requires
        spec_raw(a) == spec_raw(b),
    ensures
        a == b,
{
}

/// The kind whose raw value is `d`, for `d` up to the last kind's.
pub fn kind_from_raw(d: u16) -> (k: SyntaxKind)
    requires
        d <= 77,
    ensures
        spec_raw(k) == d,
{
    if d == 0 {
        SyntaxKind::Invalid
    } else if d == 1 {
        SyntaxKind::Whitespace
    } else if d == 2 {
        SyntaxKind::Newline
    } else if d == 3 {
        SyntaxKind::Comment
    } else if d == 4 {
        SyntaxKind::Identifier
    } else if d == 5 {
        SyntaxKind::Name
    } else if d == 6 {
        SyntaxKind::String
    } else if d == 7 {
        SyntaxKind::Number
    } else if d == 8 {
        SyntaxKind::EoF
    } else if d == 9 {
        SyntaxKind::Dot
    } else if d == 10 {
        SyntaxKind::DoubleDot
    } else if d == 11 {
        SyntaxKind::TripleDot
    } else if d == 12 {
        SyntaxKind::LeftBracket
    } else if d == 13 {
        SyntaxKind::RightBracket
    } else if d == 14 {
        SyntaxKind::LeftCurlyBracket
    } else if d == 15 {
        SyntaxKind::RightCurlyBracket
    } else if d == 16 {
        SyntaxKind::LeftSquareBracket
    } else if d == 17 {
        SyntaxKind::RightSquareBracket
    } else if d == 18 {
        SyntaxKind::Minus
    } else if d == 19 {
        SyntaxKind::Plus
    } else if d == 20 {
        SyntaxKind::Asterisk
    } else if d == 21 {
        SyntaxKind::Slash
    } else if d == 22 {
        SyntaxKind::Modulo
    } else if d == 23 {
        SyntaxKind::Semicolon
    } else if d == 24 {
        SyntaxKind::Colon
    } else if d == 25 {
        SyntaxKind::EqualsBoolean
    } else if d == 26 {
        SyntaxKind::NotEqualsBoolean
    } else if d == 27 {
        SyntaxKind::LessThanOrEquals
    } else if d == 28 {
        SyntaxKind::GreaterThanOrEquals
    } else if d == 29 {
        SyntaxKind::LessThan
    } else if d == 30 {
        SyntaxKind::GreaterThan
    } else if d == 31 {
        SyntaxKind::Assign
    } else if d == 32 {
        SyntaxKind::Comma
    } else if d == 33 {
        SyntaxKind::Hash
    } else if d == 34 {
        SyntaxKind::Hat
    } else if d == 35 {
        SyntaxKind::Block
    } else if d == 36 {
        SyntaxKind::FunctionDefinition
    } else if d == 37 {
        SyntaxKind::FunctionCall
    } else if d == 38 {
        SyntaxKind::DoBlock
    } else if d == 39 {
        SyntaxKind::WhileLoop
    } else if d == 40 {
        SyntaxKind::ForLoop
    } else if d == 41 {
        SyntaxKind::Statement
    } else if d == 42 {
        SyntaxKind::Assignment
    } else if d == 43 {
        SyntaxKind::ReturnStatement
    } else if d == 44 {
        SyntaxKind::VarList
    } else if d == 45 {
        SyntaxKind::VariableName
    } else if d == 46 {
        SyntaxKind::ExpList
    } else if d == 47 {
        SyntaxKind::Expression
    } else if d == 48 {
        SyntaxKind::GroupedExpression
    } else if d == 49 {
        SyntaxKind::PrefixExpression
    } else if d == 50 {
        SyntaxKind::ArgumentList
    } else if d == 51 {
        SyntaxKind::ParameterList
    } else if d == 52 {
        SyntaxKind::Parameter
    } else if d == 53 {
        SyntaxKind::ParameterVarArgs
    } else if d == 54 {
        SyntaxKind::TableConstructor
    } else if d == 55 {
        SyntaxKind::FieldList
    } else if d == 56 {
        SyntaxKind::AndKeyword
    } else if d == 57 {
        SyntaxKind::BreakKeyword
    } else if d == 58 {
        SyntaxKind::DoKeyword
    } else if d == 59 {
        SyntaxKind::ElseKeyword
    } else if d == 60 {
        SyntaxKind::ElseIfKeyword
    } else if d == 61 {
        SyntaxKind::EndKeyword
    } else if d == 62 {
        SyntaxKind::FalseKeyword
    } else if d == 63 {
        SyntaxKind::ForKeyword
    } else if d == 64 {
        SyntaxKind::FunctionKeyword
    } else if d == 65 {
        SyntaxKind::IfKeyword
    } else if d == 66 {
        SyntaxKind::InKeyword
    } else if d == 67 {
        SyntaxKind::LocalKeyword
    } else if d == 68 {
        SyntaxKind::NilKeyword
    } else if d == 69 {
        SyntaxKind::NotKeyword
    } else if d == 70 {
        SyntaxKind::OrKeyword
    } else if d == 71 {
        SyntaxKind::RepeatKeyword
    } else if d == 72 {
        SyntaxKind::ReturnKeyword
    } else if d == 73 {
        SyntaxKind::ThenKeyword
    } else if d == 74 {
        SyntaxKind::TrueKeyword
    } else if d == 75 {
        SyntaxKind::UntilKeyword
    } else if d == 76 {
        SyntaxKind::WhileKeyword
    } else {
        SyntaxKind::__LAST
    }
}

#[derive(Debug, Clone, Copy, PartialEq, Eq, Structural)]
pub enum ErrorKind {
    NotClosedBlock,
    NotClosedComment,
    NotClosedString,
    UnexpectedKeyword,
    UnexpectedToken,
    UnexpectedOperator,
    ExpectingComma,
    ExpectingName,
    ExpectingClosingBracket,
    ExpectingFunctionCall,
    UnexpectedParameter,
    InvalidName,
    InvalidVariableName,
    InvalidFunction,
}

#[derive(Debug, Clone, Copy, PartialEq, Eq, Structural)]
pub struct Error {
    start: usize,
    end: usize,
    kind: ErrorKind,
}

/// The keyword that `s` spells, or `Name` for any other text.
pub open spec fn spec_keyword(s: Seq<char>) -> SyntaxKind {
    if s == seq!['a', 'n', 'd'] {
        SyntaxKind::AndKeyword
    } else if s == seq!['b', 'r', 'e', 'a', 'k'] {
        SyntaxKind::BreakKeyword
    } else if s == seq!['d', 'o'] {
        SyntaxKind::DoKeyword
    } else if s == seq!['e', 'l', 's', 'e'] {
        SyntaxKind::ElseKeyword
    } else if s == seq!['e', 'l', 's', 'e', 'i', 'f'] {
        SyntaxKind::ElseIfKeyword
    } else if s == seq!['e', 'n', 'd'] {
        SyntaxKind::EndKeyword
    } else if s == seq!['f', 'a', 'l', 's', 'e'] {
        SyntaxKind::FalseKeyword
    } else if s == seq!['f', 'o', 'r'] {
        SyntaxKind::ForKeyword
    } else if s == seq!['f', 'u', 'n', 'c', 't', 'i', 'o', 'n'] {
        SyntaxKind::FunctionKeyword
    } else if s == seq!['i', 'f'] {
        SyntaxKind::IfKeyword
    } else if s == seq!['i', 'n'] {
        SyntaxKind::InKeyword
    } else if s == seq!['l', 'o', 'c', 'a', 'l'] {
        SyntaxKind::LocalKeyword
    } else if s == seq!['n', 'i', 'l'] {
        SyntaxKind::NilKeyword
    } else if s == seq!['n', 'o', 't'] {
        SyntaxKind::NotKeyword
    } else if s == seq!['o', 'r'] {
        SyntaxKind::OrKeyword
    } else if s == seq!['r', 'e', 'p', 'e', 'a', 't'] {
        SyntaxKind::RepeatKeyword
    } else if s == seq!['r', 'e', 't', 'u', 'r', 'n'] {
        SyntaxKind::ReturnKeyword
    } else if s == seq!['t', 'h', 'e', 'n'] {
        SyntaxKind::ThenKeyword
    } else if s == seq!['t', 'r', 'u', 'e'] {
        SyntaxKind::TrueKeyword
    } else if s == seq!['u', 'n', 't', 'i', 'l'] {
        SyntaxKind::UntilKeyword
    } else if s == seq!['w', 'h', 'i', 'l', 'e'] {
        SyntaxKind::WhileKeyword
    } else {
        SyntaxKind::Name
    }
}

/// The keyword that `text` spells, or `Name`.
pub fn str_to_keyword(text: &str) -> (k: SyntaxKind)
    ensures
        k == spec_keyword(text@),
{
    let cs = text_chars(text);
    if same_chars(&cs, &vec!['a', 'n', 'd']) {
        SyntaxKind::AndKeyword
    } else if same_chars(&cs, &vec!['b', 'r', 'e', 'a', 'k']) {
        SyntaxKind::BreakKeyword
    } else if same_chars(&cs, &vec!['d', 'o']) {
        SyntaxKind::DoKeyword
    } else if same_chars(&cs, &vec!['e', 'l', 's', 'e']) {
        SyntaxKind::ElseKeyword
    } else if same_chars(&cs, &vec!['e', 'l', 's', 'e', 'i', 'f']) {
        SyntaxKind::ElseIfKeyword
    } else if same_chars(&cs, &vec!['e', 'n', 'd']) {
        SyntaxKind::EndKeyword
    } else if same_chars(&cs, &vec!['f', 'a', 'l', 's', 'e']) {
        SyntaxKind::FalseKeyword
    } else if same_chars(&cs, &vec!['f', 'o', 'r']) {
        SyntaxKind::ForKeyword
    } else if same_chars(&cs, &vec!['f', 'u', 'n', 'c', 't', 'i', 'o', 'n']) {
        SyntaxKind::FunctionKeyword
    } else if same_chars(&cs, &vec!['i', 'f']) {
        SyntaxKind::IfKeyword
    } else if same_chars(&cs, &vec!['i', 'n']) {
        SyntaxKind::InKeyword
    } else if same_chars(&cs, &vec!['l', 'o', 'c', 'a', 'l']) {
        SyntaxKind::LocalKeyword
    } else if same_chars(&cs, &vec!['n', 'i', 'l']) {
        SyntaxKind::NilKeyword
    } else if same_chars(&cs, &vec!['n', 'o', 't']) {
        SyntaxKind::NotKeyword
    } else if same_chars(&cs, &vec!['o', 'r']) {
        SyntaxKind::OrKeyword
    } else if same_chars(&cs, &vec!['r', 'e', 'p', 'e', 'a', 't']) {
        SyntaxKind::RepeatKeyword
    } else if same_chars(&cs, &vec!['r', 'e', 't', 'u', 'r', 'n']) {
        SyntaxKind::ReturnKeyword
    } else if same_chars(&cs, &vec!['t', 'h', 'e', 'n']) {
        SyntaxKind::ThenKeyword
    } else if same_chars(&cs, &vec!['t', 'r', 'u', 'e']) {
        SyntaxKind::TrueKeyword
    } else if same_chars(&cs, &vec!['u', 'n', 't', 'i', 'l']) {
        SyntaxKind::UntilKeyword
    } else if same_chars(&cs, &vec!['w', 'h', 'i', 'l', 'e']) {
        SyntaxKind::WhileKeyword
    } else {
        SyntaxKind::Name
    }
}

} // verus!
