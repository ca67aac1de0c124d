//! The syntax tree generator: reads tokens and builds a rowan green tree,
//! collecting the errors it finds on the way.
//!
//! What is proved of every scanning method: it terminates, it leaves the text
//! and the lexer's position consistent, every slice of the text it takes lies
//! on character boundaries, and it uses the tree builder as rowan demands: it
//! finishes only nodes that are open, wraps only at checkpoints that are
//! still valid, and leaves the stack of open nodes as it found it. Every
//! error recorded starts and ends within the text, and the whole text is read.
use vstd::prelude::*;
use rowan::{Checkpoint, GreenNode, GreenNodeBuilder};
use crate::green_builder::{
    add_token, added_text, builder_ok, built_elements, built_trees, GreenTree, checkpoint, checkpoint_index, finish, finish_node, green_kind,
    innermost_first, new_builder, open_nodes, start_node, start_node_at,
};
use crate::syntax::lexer::token_validity;
use crate::syntax::lexer::Generator as TokenGenerator;
use crate::syntax::lexer::{lemma_identifier_end, next_index, spec_scan, token_at, Token};
use crate::syntax::lexer::TokenKind;
use crate::unicode::{byte_length, byte_offset, len_utf8, lemma_byte_offset_mono, same_chars, text_chars};

verus! {

broadcast use crate::green_builder::lemma_push_drop_last;

#[allow(non_camel_case_types)]
#[derive(Debug, Clone, Copy, PartialEq, Eq, Structural, PartialOrd, Ord, Hash)]
pub enum SyntaxKind {
    Invalid,
    Whitespace,
    Newline,
    Comment,
    Identifier,
    Name,
    String,
    Number,
    EoF,
    Dot,
    DoubleDot,
    TripleDot,
    LeftBracket,
    RightBracket,
    LeftCurlyBracket,
    RightCurlyBracket,
    LeftSquareBracket,
    RightSquareBracket,
    Minus,
    Plus,
    Asterisk,
    Slash,
    Modulo,
    Semicolon,
    Colon,
    EqualsBoolean,
    NotEqualsBoolean,
    LessThanOrEquals,
    GreaterThanOrEquals,
    LessThan,
    GreaterThan,
    Assign,
    Comma,
    Hash,
    Hat,
    Block,
    FunctionDefinition,
    FunctionCall,
    DoBlock,
    WhileLoop,
    RepeatUntilLoop,
    ForCountLoop,
    ForInLoop,
    Statement,
    AssignStatement,
    LocalAssignStatement,
    ReturnStatement,
    VariableList,
    NameList,
    Expression,
    ExpressionList,
    BinaryExpression,
    UnaryExpression,
    GroupedExpression,
    PrefixExpression,
    ArgumentList,
    ParameterList,
    Parameter,
    ParameterVarArgs,
    TableConstructor,
    FieldList,
    Condition,
    IfChain,
    IfBranch,
    ElseBranch,
    Field,
    Literal,
    AndKeyword,
    BreakKeyword,
    DoKeyword,
    ElseKeyword,
    ElseIfKeyword,
    EndKeyword,
    FalseKeyword,
    ForKeyword,
    FunctionKeyword,
    IfKeyword,
    InKeyword,
    LocalKeyword,
    NilKeyword,
    NotKeyword,
    OrKeyword,
    RepeatKeyword,
    ReturnKeyword,
    ThenKeyword,
    TrueKeyword,
    UntilKeyword,
    WhileKeyword,
    __LAST,
}

/// The raw value of a kind: its position in the declaration.
pub open spec fn spec_raw(k: SyntaxKind) -> u16 {
    match k {
        SyntaxKind::Invalid => 0,
        SyntaxKind::Whitespace => 1,
        SyntaxKind::Newline => 2,
        SyntaxKind::Comment => 3,
        SyntaxKind::Identifier => 4,
        SyntaxKind::Name => 5,
        SyntaxKind::String => 6,
        SyntaxKind::Number => 7,
        SyntaxKind::EoF => 8,
        SyntaxKind::Dot => 9,
        SyntaxKind::DoubleDot => 10,
        SyntaxKind::TripleDot => 11,
        SyntaxKind::LeftBracket => 12,
        SyntaxKind::RightBracket => 13,
        SyntaxKind::LeftCurlyBracket => 14,
        SyntaxKind::RightCurlyBracket => 15,
        SyntaxKind::LeftSquareBracket => 16,
        SyntaxKind::RightSquareBracket => 17,
        SyntaxKind::Minus => 18,
        SyntaxKind::Plus => 19,
        SyntaxKind::Asterisk => 20,
        SyntaxKind::Slash => 21,
        SyntaxKind::Modulo => 22,
        SyntaxKind::Semicolon => 23,
        SyntaxKind::Colon => 24,
        SyntaxKind::EqualsBoolean => 25,
        SyntaxKind::NotEqualsBoolean => 26,
        SyntaxKind::LessThanOrEquals => 27,
        SyntaxKind::GreaterThanOrEquals => 28,
        SyntaxKind::LessThan => 29,
        SyntaxKind::GreaterThan => 30,
        SyntaxKind::Assign => 31,
        SyntaxKind::Comma => 32,
        SyntaxKind::Hash => 33,
        SyntaxKind::Hat => 34,
        SyntaxKind::Block => 35,
        SyntaxKind::FunctionDefinition => 36,
        SyntaxKind::FunctionCall => 37,
        SyntaxKind::DoBlock => 38,
        SyntaxKind::WhileLoop => 39,
        SyntaxKind::RepeatUntilLoop => 40,
        SyntaxKind::ForCountLoop => 41,
        SyntaxKind::ForInLoop => 42,
        SyntaxKind::Statement => 43,
        SyntaxKind::AssignStatement => 44,
        SyntaxKind::LocalAssignStatement => 45,
        SyntaxKind::ReturnStatement => 46,
        SyntaxKind::VariableList => 47,
        SyntaxKind::NameList => 48,
        SyntaxKind::Expression => 49,
        SyntaxKind::ExpressionList => 50,
        SyntaxKind::BinaryExpression => 51,
        SyntaxKind::UnaryExpression => 52,
        SyntaxKind::GroupedExpression => 53,
        SyntaxKind::PrefixExpression => 54,
        SyntaxKind::ArgumentList => 55,
        SyntaxKind::ParameterList => 56,
        SyntaxKind::Parameter => 57,
        SyntaxKind::ParameterVarArgs => 58,
        SyntaxKind::TableConstructor => 59,
        SyntaxKind::FieldList => 60,
        SyntaxKind::Condition => 61,
        SyntaxKind::IfChain => 62,
        SyntaxKind::IfBranch => 63,
        SyntaxKind::ElseBranch => 64,
        SyntaxKind::Field => 65,
        SyntaxKind::Literal => 66,
        SyntaxKind::AndKeyword => 67,
        SyntaxKind::BreakKeyword => 68,
        SyntaxKind::DoKeyword => 69,
        SyntaxKind::ElseKeyword => 70,
        SyntaxKind::ElseIfKeyword => 71,
        SyntaxKind::EndKeyword => 72,
        SyntaxKind::FalseKeyword => 73,
        SyntaxKind::ForKeyword => 74,
        SyntaxKind::FunctionKeyword => 75,
        SyntaxKind::IfKeyword => 76,
        SyntaxKind::InKeyword => 77,
        SyntaxKind::LocalKeyword => 78,
        SyntaxKind::NilKeyword => 79,
        SyntaxKind::NotKeyword => 80,
        SyntaxKind::OrKeyword => 81,
        SyntaxKind::RepeatKeyword => 82,
        SyntaxKind::ReturnKeyword => 83,
        SyntaxKind::ThenKeyword => 84,
        SyntaxKind::TrueKeyword => 85,
        SyntaxKind::UntilKeyword => 86,
        SyntaxKind::WhileKeyword => 87,
        SyntaxKind::__LAST => 88,
    }
}

/// The raw value of a kind, as rowan stores it.
pub fn to_raw(k: SyntaxKind) -> (r: u16)
    ensures
        r == spec_raw(k),
{
    match k {
        SyntaxKind::Invalid => 0,
        SyntaxKind::Whitespace => 1,
        SyntaxKind::Newline => 2,
        SyntaxKind::Comment => 3,
        SyntaxKind::Identifier => 4,
        SyntaxKind::Name => 5,
        SyntaxKind::String => 6,
        SyntaxKind::Number => 7,
        SyntaxKind::EoF => 8,
        SyntaxKind::Dot => 9,
        SyntaxKind::DoubleDot => 10,
        SyntaxKind::TripleDot => 11,
        SyntaxKind::LeftBracket => 12,
        SyntaxKind::RightBracket => 13,
        SyntaxKind::LeftCurlyBracket => 14,
        SyntaxKind::RightCurlyBracket => 15,
        SyntaxKind::LeftSquareBracket => 16,
        SyntaxKind::RightSquareBracket => 17,
        SyntaxKind::Minus => 18,
        SyntaxKind::Plus => 19,
        SyntaxKind::Asterisk => 20,
        SyntaxKind::Slash => 21,
        SyntaxKind::Modulo => 22,
        SyntaxKind::Semicolon => 23,
        SyntaxKind::Colon => 24,
        SyntaxKind::EqualsBoolean => 25,
        SyntaxKind::NotEqualsBoolean => 26,
        SyntaxKind::LessThanOrEquals => 27,
        SyntaxKind::GreaterThanOrEquals => 28,
        SyntaxKind::LessThan => 29,
        SyntaxKind::GreaterThan => 30,
        SyntaxKind::Assign => 31,
        SyntaxKind::Comma => 32,
        SyntaxKind::Hash => 33,
        SyntaxKind::Hat => 34,
        SyntaxKind::Block => 35,
        SyntaxKind::FunctionDefinition => 36,
        SyntaxKind::FunctionCall => 37,
        SyntaxKind::DoBlock => 38,
        SyntaxKind::WhileLoop => 39,
        SyntaxKind::RepeatUntilLoop => 40,
        SyntaxKind::ForCountLoop => 41,
        SyntaxKind::ForInLoop => 42,
        SyntaxKind::Statement => 43,
        SyntaxKind::AssignStatement => 44,
        SyntaxKind::LocalAssignStatement => 45,
        SyntaxKind::ReturnStatement => 46,
        SyntaxKind::VariableList => 47,
        SyntaxKind::NameList => 48,
        SyntaxKind::Expression => 49,
        SyntaxKind::ExpressionList => 50,
        SyntaxKind::BinaryExpression => 51,
        SyntaxKind::UnaryExpression => 52,
        SyntaxKind::GroupedExpression => 53,
        SyntaxKind::PrefixExpression => 54,
        SyntaxKind::ArgumentList => 55,
        SyntaxKind::ParameterList => 56,
        SyntaxKind::Parameter => 57,
        SyntaxKind::ParameterVarArgs => 58,
        SyntaxKind::TableConstructor => 59,
        SyntaxKind::FieldList => 60,
        SyntaxKind::Condition => 61,
        SyntaxKind::IfChain => 62,
        SyntaxKind::IfBranch => 63,
        SyntaxKind::ElseBranch => 64,
        SyntaxKind::Field => 65,
        SyntaxKind::Literal => 66,
        SyntaxKind::AndKeyword => 67,
        SyntaxKind::BreakKeyword => 68,
        SyntaxKind::DoKeyword => 69,
        SyntaxKind::ElseKeyword => 70,
        SyntaxKind::ElseIfKeyword => 71,
        SyntaxKind::EndKeyword => 72,
        SyntaxKind::FalseKeyword => 73,
        SyntaxKind::ForKeyword => 74,
        SyntaxKind::FunctionKeyword => 75,
        SyntaxKind::IfKeyword => 76,
        SyntaxKind::InKeyword => 77,
        SyntaxKind::LocalKeyword => 78,
        SyntaxKind::NilKeyword => 79,
        SyntaxKind::NotKeyword => 80,
        SyntaxKind::OrKeyword => 81,
        SyntaxKind::RepeatKeyword => 82,
        SyntaxKind::ReturnKeyword => 83,
        SyntaxKind::ThenKeyword => 84,
        SyntaxKind::TrueKeyword => 85,
        SyntaxKind::UntilKeyword => 86,
        SyntaxKind::WhileKeyword => 87,
        SyntaxKind::__LAST => 88,
    }
}

/// Different kinds have different raw values, so `kind_from_raw` undoes `to_raw`.
pub proof fn law_raw_injective(a: SyntaxKind, b: SyntaxKind)
    requires
        spec_raw(a) == spec_raw(b),
    ensures
        a == b,
{
}

/// The kind whose raw value is `d`, for `d` up to the last kind's.
pub fn kind_from_raw(d: u16) -> (k: SyntaxKind)
    requires
        d <= 88,
    ensures
        spec_raw(k) == d,
{

    if d == 0 {
        SyntaxKind::Invalid
    } else if d == 1 {
        SyntaxKind::Whitespace
    } else if d == 2 {
        SyntaxKind::Newline
    } else if d == 3 {
        SyntaxKind::Comment
    } else if d == 4 {
        SyntaxKind::Identifier
    } else if d == 5 {
        SyntaxKind::Name
    } else if d == 6 {
        SyntaxKind::String
    } else if d == 7 {
        SyntaxKind::Number
    } else if d == 8 {
        SyntaxKind::EoF
    } else if d == 9 {
        SyntaxKind::Dot
    } else if d == 10 {
        SyntaxKind::DoubleDot
    } else if d == 11 {
        SyntaxKind::TripleDot
    } else if d == 12 {
        SyntaxKind::LeftBracket
    } else if d == 13 {
        SyntaxKind::RightBracket
    } else if d == 14 {
        SyntaxKind::LeftCurlyBracket
    } else if d == 15 {
        SyntaxKind::RightCurlyBracket
    } else if d == 16 {
        SyntaxKind::LeftSquareBracket
    } else if d == 17 {
        SyntaxKind::RightSquareBracket
    } else if d == 18 {
        SyntaxKind::Minus
    } else if d == 19 {
        SyntaxKind::Plus
    } else if d == 20 {
        SyntaxKind::Asterisk
    } else if d == 21 {
        SyntaxKind::Slash
    } else if d == 22 {
        SyntaxKind::Modulo
    } else if d == 23 {
        SyntaxKind::Semicolon
    } else if d == 24 {
        SyntaxKind::Colon
    } else if d == 25 {
        SyntaxKind::EqualsBoolean
    } else if d == 26 {
        SyntaxKind::NotEqualsBoolean
    } else if d == 27 {
        SyntaxKind::LessThanOrEquals
    } else if d == 28 {
        SyntaxKind::GreaterThanOrEquals
    } else if d == 29 {
        SyntaxKind::LessThan
    } else if d == 30 {
        SyntaxKind::GreaterThan
    } else if d == 31 {
        SyntaxKind::Assign
    } else if d == 32 {
        SyntaxKind::Comma
    } else if d == 33 {
        SyntaxKind::Hash
    } else if d == 34 {
        SyntaxKind::Hat
    } else if d == 35 {
        SyntaxKind::Block
    } else if d == 36 {
        SyntaxKind::FunctionDefinition
    } else if d == 37 {
        SyntaxKind::FunctionCall
    } else if d == 38 {
        SyntaxKind::DoBlock
    } else if d == 39 {
        SyntaxKind::WhileLoop
    } else if d == 40 {
        SyntaxKind::RepeatUntilLoop
    } else if d == 41 {
        SyntaxKind::ForCountLoop
    } else if d == 42 {
        SyntaxKind::ForInLoop
    } else if d == 43 {
        SyntaxKind::Statement
    } else if d == 44 {
        SyntaxKind::AssignStatement
    } else if d == 45 {
        SyntaxKind::LocalAssignStatement
    } else if d == 46 {
        SyntaxKind::ReturnStatement
    } else if d == 47 {
        SyntaxKind::VariableList
    } else if d == 48 {
        SyntaxKind::NameList
    } else if d == 49 {
        SyntaxKind::Expression
    } else if d == 50 {
        SyntaxKind::ExpressionList
    } else if d == 51 {
        SyntaxKind::BinaryExpression
    } else if d == 52 {
        SyntaxKind::UnaryExpression
    } else if d == 53 {
        SyntaxKind::GroupedExpression
    } else if d == 54 {
        SyntaxKind::PrefixExpression
    } else if d == 55 {
        SyntaxKind::ArgumentList
    } else if d == 56 {
        SyntaxKind::ParameterList
    } else if d == 57 {
        SyntaxKind::Parameter
    } else if d == 58 {
        SyntaxKind::ParameterVarArgs
    } else if d == 59 {
        SyntaxKind::TableConstructor
    } else if d == 60 {
        SyntaxKind::FieldList
    } else if d == 61 {
        SyntaxKind::Condition
    } else if d == 62 {
        SyntaxKind::IfChain
    } else if d == 63 {
        SyntaxKind::IfBranch
    } else if d == 64 {
        SyntaxKind::ElseBranch
    } else if d == 65 {
        SyntaxKind::Field
    } else if d == 66 {
        SyntaxKind::Literal
    } else if d == 67 {
        SyntaxKind::AndKeyword
    } else if d == 68 {
        SyntaxKind::BreakKeyword
    } else if d == 69 {
        SyntaxKind::DoKeyword
    } else if d == 70 {
        SyntaxKind::ElseKeyword
    } else if d == 71 {
        SyntaxKind::ElseIfKeyword
    } else if d == 72 {
        SyntaxKind::EndKeyword
    } else if d == 73 {
        SyntaxKind::FalseKeyword
    } else if d == 74 {
        SyntaxKind::ForKeyword
    } else if d == 75 {
        SyntaxKind::FunctionKeyword
    } else if d == 76 {
        SyntaxKind::IfKeyword
    } else if d == 77 {
        SyntaxKind::InKeyword
    } else if d == 78 {
        SyntaxKind::LocalKeyword
    } else if d == 79 {
        SyntaxKind::NilKeyword
    } else if d == 80 {
        SyntaxKind::NotKeyword
    } else if d == 81 {
        SyntaxKind::OrKeyword
    } else if d == 82 {
        SyntaxKind::RepeatKeyword
    } else if d == 83 {
        SyntaxKind::ReturnKeyword
    } else if d == 84 {
        SyntaxKind::ThenKeyword
    } else if d == 85 {
        SyntaxKind::TrueKeyword
    } else if d == 86 {
        SyntaxKind::UntilKeyword
    } else if d == 87 {
        SyntaxKind::WhileKeyword
    } else {
        SyntaxKind::__LAST
    }
}

#[derive(Debug, Clone, Copy, PartialEq, Eq, Structural)]
pub enum ErrorKind {
    NotClosedBlock,
    NotClosedComment,
    NotTerminatedString,
    InvalidNumberFormat,
    UnexpectedKeyword,
    UnexpectedToken,
    UnexpectedOperator,
    ExpectingComma,
    ExpectingCommaOrBracket,
    ExpectingThen,
    ExpectingDo,
    ExpectingToken,
    ExpectingName,
    ExpectingClosingBracket,
    ExpectingFunctionCall,
    ExpectingExpression,
    InvalidName,
    InvalidFunction,
}

#[derive(Debug, Clone, Copy, PartialEq, Eq, Structural)]
pub struct Error {
    pub start: usize,
    pub end: usize,
    pub kind: ErrorKind,
}

#[derive(Debug, Clone, Copy, PartialEq, Eq, Structural, PartialOrd, Ord, Hash)]
pub enum ExpressionKind {
    FunctionCall,
    Name,
    Identifier,
    Literal,
    Nested,
    Combined,
    Nothing,
}

/// The keyword that `s` spells, or `Name` for any other text.
pub open spec fn spec_keyword(s: Seq<char>) -> SyntaxKind {
    if s == seq!['a', 'n', 'd'] {
        SyntaxKind::AndKeyword
    } else if s == seq!['b', 'r', 'e', 'a', 'k'] {
        SyntaxKind::BreakKeyword
    } else if s == seq!['d', 'o'] {
        SyntaxKind::DoKeyword
    } else if s == seq!['e', 'l', 's', 'e'] {
        SyntaxKind::ElseKeyword
    } else if s == seq!['e', 'l', 's', 'e', 'i', 'f'] {
        SyntaxKind::ElseIfKeyword
    } else if s == seq!['e', 'n', 'd'] {
        SyntaxKind::EndKeyword
    } else if s == seq!['f', 'a', 'l', 's', 'e'] {
        SyntaxKind::FalseKeyword
    } else if s == seq!['f', 'o', 'r'] {
        SyntaxKind::ForKeyword
    } else if s == seq!['f', 'u', 'n', 'c', 't', 'i', 'o', 'n'] {
        SyntaxKind::FunctionKeyword
    } else if s == seq!['i', 'f'] {
        SyntaxKind::IfKeyword
    } else if s == seq!['i', 'n'] {
        SyntaxKind::InKeyword
    } else if s == seq!['l', 'o', 'c', 'a', 'l'] {
        SyntaxKind::LocalKeyword
    } else if s == seq!['n', 'i', 'l'] {
        SyntaxKind::NilKeyword
    } else if s == seq!['n', 'o', 't'] {
        SyntaxKind::NotKeyword
    } else if s == seq!['o', 'r'] {
        SyntaxKind::OrKeyword
    } else if s == seq!['r', 'e', 'p', 'e', 'a', 't'] {
        SyntaxKind::RepeatKeyword
    } else if s == seq!['r', 'e', 't', 'u', 'r', 'n'] {
        SyntaxKind::ReturnKeyword
    } else if s == seq!['t', 'h', 'e', 'n'] {
        SyntaxKind::ThenKeyword
    } else if s == seq!['t', 'r', 'u', 'e'] {
        SyntaxKind::TrueKeyword
    } else if s == seq!['u', 'n', 't', 'i', 'l'] {
        SyntaxKind::UntilKeyword
    } else if s == seq!['w', 'h', 'i', 'l', 'e'] {
        SyntaxKind::WhileKeyword
    } else {
        SyntaxKind::Name
    }
}

/// The keyword that the characters spell, or `Name`.
pub fn keyword_of(cs: &Vec<char>) -> (k: SyntaxKind)
    ensures
        k == spec_keyword(cs@),
{
    if same_chars(cs, &vec!['a', 'n', 'd']) {
        SyntaxKind::AndKeyword
    } else if same_chars(cs, &vec!['b', 'r', 'e', 'a', 'k']) {
        SyntaxKind::BreakKeyword
    } else if same_chars(cs, &vec!['d', 'o']) {
        SyntaxKind::DoKeyword
    } else if same_chars(cs, &vec!['e', 'l', 's', 'e']) {
        SyntaxKind::ElseKeyword
    } else if same_chars(cs, &vec!['e', 'l', 's', 'e', 'i', 'f']) {
        SyntaxKind::ElseIfKeyword
    } else if same_chars(cs, &vec!['e', 'n', 'd']) {
        SyntaxKind::EndKeyword
    } else if same_chars(cs, &vec!['f', 'a', 'l', 's', 'e']) {
        SyntaxKind::FalseKeyword
    } else if same_chars(cs, &vec!['f', 'o', 'r']) {
        SyntaxKind::ForKeyword
    } else if same_chars(cs, &vec!['f', 'u', 'n', 'c', 't', 'i', 'o', 'n']) {
        SyntaxKind::FunctionKeyword
    } else if same_chars(cs, &vec!['i', 'f']) {
        SyntaxKind::IfKeyword
    } else if same_chars(cs, &vec!['i', 'n']) {
        SyntaxKind::InKeyword
    } else if same_chars(cs, &vec!['l', 'o', 'c', 'a', 'l']) {
        SyntaxKind::LocalKeyword
    } else if same_chars(cs, &vec!['n', 'i', 'l']) {
        SyntaxKind::NilKeyword
    } else if same_chars(cs, &vec!['n', 'o', 't']) {
        SyntaxKind::NotKeyword
    } else if same_chars(cs, &vec!['o', 'r']) {
        SyntaxKind::OrKeyword
    } else if same_chars(cs, &vec!['r', 'e', 'p', 'e', 'a', 't']) {
        SyntaxKind::RepeatKeyword
    } else if same_chars(cs, &vec!['r', 'e', 't', 'u', 'r', 'n']) {
        SyntaxKind::ReturnKeyword
    } else if same_chars(cs, &vec!['t', 'h', 'e', 'n']) {
        SyntaxKind::ThenKeyword
    } else if same_chars(cs, &vec!['t', 'r', 'u', 'e']) {
        SyntaxKind::TrueKeyword
    } else if same_chars(cs, &vec!['u', 'n', 't', 'i', 'l']) {
        SyntaxKind::UntilKeyword
    } else if same_chars(cs, &vec!['w', 'h', 'i', 'l', 'e']) {
        SyntaxKind::WhileKeyword
    } else {
        SyntaxKind::Name
    }
}

/// The keyword that `text` spells, or `Name`.
pub fn str_to_keyword(text: &str) -> (k: SyntaxKind)
    ensures
        k == spec_keyword(text@),
{
    keyword_of(&text_chars(text))
}

/// Every error starts and ends within the `n` bytes of the text.
pub open spec fn errors_within(errors: Seq<Error>, n: int) -> bool {
    forall|i: int| 0 <= i < errors.len() ==> #[trigger] errors[i].start <= n && errors[i].end <= n
}

/// A token as the generator holds it: with the character indices where its
/// text starts and ends.
#[derive(Clone, Copy)]
pub struct Tok {
    pub token: Token,
    pub first: usize,
    pub last: usize,
}

/// A token read from the text `s` at index `t.first`: the lexer's token there,
/// with the index where its text ends and the byte offsets of both.
pub open spec fn tok_ok(t: Tok, s: Seq<char>) -> bool {
    &&& t.first < s.len()
    &&& t.token == token_at(s, t.first as int)
    &&& t.last == spec_scan(s, t.first as int).1
    &&& t.first <= t.last <= s.len()
    &&& t.token.start == byte_offset(s, t.first as int)
    &&& t.token.end == byte_offset(s, t.last as int)
    &&& t.token.start < byte_length(s)
    &&& t.token.start <= t.token.end <= byte_length(s)
}

pub open spec fn trivia(k: TokenKind) -> bool {
    k is Whitespace || k is Newline || k is Comment
}

/// A token that cannot begin a statement: neither whitespace, a line break,
/// a comment, a name or keyword, an opening bracket nor a semicolon.
pub open spec fn stray_token(k: TokenKind) -> bool {
    !(trivia(k) || k is Identifier || k is LeftBracket || k is Semicolon)
}

/// The raw kind of the tree token for a whitespace, line-break or comment
/// token.
pub open spec fn trivia_kind(k: TokenKind) -> u16 {
    match k {
        TokenKind::Whitespace => spec_raw(SyntaxKind::Whitespace),
        TokenKind::Newline => spec_raw(SyntaxKind::Newline),
        _ => spec_raw(SyntaxKind::Comment),
    }
}

/// Whether a run of whitespace, line breaks and comments goes on at index `p`.
pub open spec fn trivia_at(s: Seq<char>, p: int) -> bool {
    0 <= p < s.len() && p < next_index(s, p) <= s.len() && trivia(spec_scan(s, p).0)
}

/// Where the run of whitespace, line breaks and comments that starts at index
/// `p` ends.
pub open spec fn trivia_end(s: Seq<char>, p: int) -> int
    decreases s.len() - p,
{
    if trivia_at(s, p) {
        trivia_end(s, next_index(s, p))
    } else {
        p
    }
}

/// The tokens of that run: the raw kind of each and its characters.
pub open spec fn trivia_tokens(s: Seq<char>, p: int) -> Seq<(u16, Seq<char>)>
    decreases s.len() - p,
{
    if trivia_at(s, p) {
        seq![(trivia_kind(spec_scan(s, p).0), s.subrange(p, spec_scan(s, p).1))] + trivia_tokens(
            s,
            next_index(s, p),
        )
    } else {
        Seq::empty()
    }
}

/// The errors of that run: an unclosed comment reaches from its start to the
/// end of the text.
pub open spec fn trivia_errors(s: Seq<char>, p: int) -> Seq<Error>
    decreases s.len() - p,
{
    if trivia_at(s, p) {
        let here = match spec_scan(s, p).0 {
            TokenKind::Comment { validity: token_validity::Comment::NotTerminated, .. } => seq![
                Error {
                    start: byte_offset(s, p) as usize,
                    end: byte_length(s) as usize,
                    kind: ErrorKind::NotClosedComment,
                },
            ],
            _ => Seq::empty(),
        };
        here + trivia_errors(s, next_index(s, p))
    } else {
        Seq::empty()
    }
}

proof fn lemma_trivia_end_bounds(s: Seq<char>, p: int)
    requires
        0 <= p <= s.len(),
    ensures
        p <= trivia_end(s, p) <= s.len(),
    decreases s.len() - p,
{
    if trivia_at(s, p) {
        lemma_trivia_end_bounds(s, next_index(s, p));
    }
}

/// What a name list reads from index `p`, where a run of whitespace has just
/// ended: when `expecting` a comma, a comma (then a name is expected) or the
/// end of the list; otherwise a name (then a comma is expected), and a comma
/// where a name was expected is an error. Each token read is followed by the
/// run of whitespace, line breaks and comments after it. The tokens of the
/// list with their raw kinds and characters, the errors, and the index where
/// the list ends.
pub open spec fn name_list_rest(s: Seq<char>, p: int, expecting: bool) -> (
    Seq<(u16, Seq<char>)>,
    Seq<Error>,
    int,
)
    decreases s.len() - p,
{
    let none = (Seq::<(u16, Seq<char>)>::empty(), Seq::<Error>::empty(), p);
    if 0 <= p < s.len() && p < next_index(s, p) <= s.len() {
        let e = spec_scan(s, p).1;
        let n = next_index(s, p);
        let chars = s.subrange(p, e);
        let q = trivia_end(s, n);
        if q <= p || q > s.len() {
            none
        } else {
            match spec_scan(s, p).0 {
                TokenKind::Identifier => if expecting {
                    none
                } else {
                    let kw = spec_keyword(chars);
                    let tok = (if kw is Name { spec_raw(SyntaxKind::Name) } else { spec_raw(kw) }, chars);
                    let err = if kw is Name {
                        Seq::<Error>::empty()
                    } else {
                        seq![Error { start: byte_offset(s, p) as usize, end: byte_offset(s, e) as usize, kind: ErrorKind::UnexpectedKeyword }]
                    };
                    let rest = name_list_rest(s, q, true);
                    (seq![tok] + trivia_tokens(s, n) + rest.0, err + trivia_errors(s, n) + rest.1, rest.2)
                },
                TokenKind::Comma => {
                    let err = if expecting {
                        Seq::<Error>::empty()
                    } else {
                        seq![Error { start: byte_offset(s, p) as usize, end: byte_offset(s, e) as usize, kind: ErrorKind::UnexpectedOperator }]
                    };
                    let rest = name_list_rest(s, q, false);
                    (seq![(spec_raw(SyntaxKind::Comma), chars)] + trivia_tokens(s, n) + rest.0, err
                        + trivia_errors(s, n) + rest.1, rest.2)
                },
                _ => none,
            }
        }
    } else {
        none
    }
}

/// Each of `ts` is a tree token of the kind and characters given (or with
/// none past rowan's limit).
pub open spec fn kept_tokens(ts: Seq<GreenTree>, spec: Seq<(u16, Seq<char>)>) -> bool {
    &&& ts.len() == spec.len()
    &&& forall|i: int| 0 <= i < ts.len() ==> kept_token(#[trigger] ts[i], spec[i].0, spec[i].1)
}

/// A tree token of `kind` with the given characters, or with none where the
/// tree's text had reached rowan's limit.
pub open spec fn kept_token(t: GreenTree, kind: u16, chars: Seq<char>) -> bool {
    t == GreenTree::Token(kind, chars) || t == GreenTree::Token(kind, Seq::empty())
}

pub open spec fn opens_value(k: TokenKind) -> bool {
    k is String || k is Number || k is LeftCurlyBracket
}

/// The indices below `n` whose flag is set, in increasing order.
pub open spec fn open_list(o: Seq<bool>, n: int) -> Seq<int>
    decreases n,
{
    if n <= 0 {
        Seq::empty()
    } else if o[n - 1] {
        open_list(o, n - 1).push(n - 1)
    } else {
        open_list(o, n - 1)
    }
}

pub open spec fn open_list_ok(o: Seq<bool>, n: int) -> bool {
    let l = open_list(o, n);
    &&& forall|t: int| 0 <= t < l.len() ==> 0 <= #[trigger] l[t] < n
    &&& forall|a: int, b: int| 0 <= a < b < l.len() ==> #[trigger] l[a] < #[trigger] l[b]
}

pub proof fn lemma_open_list_ok(o: Seq<bool>, n: int)
    requires
        0 <= n,
    ensures
        open_list_ok(o, n),
    decreases n,
{
    if n > 0 {
        lemma_open_list_ok(o, n - 1);
        let l0 = open_list(o, n - 1);
        let l = open_list(o, n);
        if o[n - 1] {
            assert(l == l0.push(n - 1));
            assert forall|a: int, b: int| 0 <= a < b < l.len() implies #[trigger] l[a] < #[trigger] l[b] by {
                if b < l0.len() {
                    assert(l[a] == l0[a] && l[b] == l0[b]);
                } else {
                    assert(l[a] == l0[a]);
                }
            }
        }
    }
}

pub proof fn lemma_open_list_none(o: Seq<bool>, n: int)
    requires
        0 <= n <= o.len(),
        forall|k: int| 0 <= k < n ==> !o[k],
    ensures
        open_list(o, n) == Seq::<int>::empty(),
    decreases n,
{
    if n > 0 {
        lemma_open_list_none(o, n - 1);
    }
}

/// Flags at `m` and above do not count when none is set.
pub proof fn lemma_open_list_upper(o: Seq<bool>, m: int, n: int)
    requires
        0 <= m <= n,
        forall|k: int| m <= k < n ==> !o[k],
    ensures
        open_list(o, n) == open_list(o, m),
    decreases n - m,
{
    if n > m {
        lemma_open_list_upper(o, m, n - 1);
    }
}

/// Changing a flag at `x` does not change the list below `x`.
pub proof fn lemma_open_list_update(o: Seq<bool>, x: int, v: bool, n: int)
    requires
        0 <= n <= x < o.len(),
    ensures
        open_list(o.update(x, v), n) == open_list(o, n),
    decreases n,
{
    if n > 0 {
        lemma_open_list_update(o, x, v, n - 1);
    }
}

/// Two flag sequences that agree below `n` give the same list below `n`.
pub proof fn lemma_open_list_update_eq(a: Seq<bool>, b: Seq<bool>, n: int)
    requires
        0 <= n <= a.len(),
        n <= b.len(),
        forall|k: int| 0 <= k < n ==> a[k] == b[k],
    ensures
        open_list(a, n) == open_list(b, n),
    decreases n,
{
    if n > 0 {
        lemma_open_list_update_eq(a, b, n - 1);
    }
}

/// The open nodes are those of `d0` followed by one node per open operator
/// index, each starting at that index's checkpoint.
pub open spec fn operator_nodes(depth: Seq<(u16, int)>, d0: Seq<(u16, int)>, ol: Seq<int>, cps: Seq<Checkpoint>) -> bool {
    &&& depth.len() == d0.len() + ol.len()
    &&& depth.take(d0.len() as int) == d0
    &&& forall|t: int| 0 <= t < ol.len() ==> #[trigger] depth[d0.len() + t].1 == checkpoint_index(cps[ol[t]])
}

pub proof fn lemma_operator_nodes_pop(depth: Seq<(u16, int)>, d0: Seq<(u16, int)>, ol: Seq<int>, cps: Seq<Checkpoint>)
    requires
        operator_nodes(depth, d0, ol, cps),
        ol.len() > 0,
    ensures
        operator_nodes(depth.drop_last(), d0, ol.drop_last(), cps),
        depth.last().1 == checkpoint_index(cps[ol.last()]),
{
    assert(depth.drop_last().take(d0.len() as int) =~= d0) by {
        assert(depth.take(d0.len() as int) == d0);
        assert forall|i: int| 0 <= i < d0.len() implies depth.drop_last().take(d0.len() as int)[i] == d0[i] by {
            assert(depth.take(d0.len() as int)[i] == d0[i]);
        }
    }
    let t = ol.len() - 1;
    assert(depth[d0.len() + t].1 == checkpoint_index(cps[ol[t]]));
    assert forall|t: int| 0 <= t < ol.drop_last().len() implies #[trigger] depth.drop_last()[d0.len() + t].1 == checkpoint_index(cps[ol.drop_last()[t]]) by {
        assert(depth[d0.len() + t].1 == checkpoint_index(cps[ol[t]]));
    }
}

pub proof fn lemma_operator_nodes_push(depth: Seq<(u16, int)>, d0: Seq<(u16, int)>, ol: Seq<int>, cps: Seq<Checkpoint>, kind: u16, j: int)
    requires
        operator_nodes(depth, d0, ol, cps),
    ensures
        operator_nodes(depth.push((kind, checkpoint_index(cps[j]))), d0, ol.push(j), cps),
{
    let d2 = depth.push((kind, checkpoint_index(cps[j])));
    assert(d2.take(d0.len() as int) =~= d0) by {
        assert forall|i: int| 0 <= i < d0.len() implies d2.take(d0.len() as int)[i] == d0[i] by {
            assert(depth.take(d0.len() as int)[i] == d0[i]);
        }
    }
    assert forall|t: int| 0 <= t < ol.push(j).len() implies #[trigger] d2[d0.len() + t].1 == checkpoint_index(cps[ol.push(j)[t]]) by {
        if t < ol.len() {
            assert(depth[d0.len() + t].1 == checkpoint_index(cps[ol[t]]));
        }
    }
}

pub proof fn lemma_operator_nodes_cps(depth: Seq<(u16, int)>, d0: Seq<(u16, int)>, ol: Seq<int>, cps: Seq<Checkpoint>, cps2: Seq<Checkpoint>)
    requires
        operator_nodes(depth, d0, ol, cps),
        forall|t: int| 0 <= t < ol.len() ==> cps2[#[trigger] ol[t]] == cps[ol[t]],
    ensures
        operator_nodes(depth, d0, ol, cps2),
{
    assert forall|t: int| 0 <= t < ol.len() implies #[trigger] depth[d0.len() + t].1 == checkpoint_index(cps2[ol[t]]) by {
        assert(depth[d0.len() + t].1 == checkpoint_index(cps[ol[t]]));
        assert(cps2[ol[t]] == cps[ol[t]]);
    }
}

/// Setting the checkpoint of index 9, which no operator uses, keeps `operators_ok`.
pub proof fn lemma_operators_ok_set9(depth: Seq<(u16, int)>, size: int, d0: Seq<(u16, int)>, s0: int, is_open: Seq<bool>, cps: Seq<Checkpoint>, c: Checkpoint)
    requires
        operators_ok(depth, size, d0, s0, is_open, cps),
    ensures
        operators_ok(depth, size, d0, s0, is_open, cps.update(9, c)),
{
    let cps2 = cps.update(9, c);
    lemma_open_list_ok(is_open, 8);
    assert forall|k: int| 0 <= k < 9 implies s0 <= #[trigger] checkpoint_index(cps2[k]) <= size by {
        assert(cps2[k] == cps[k]);
    }
    assert forall|a: int, b: int| 0 <= a <= b < 9 implies #[trigger] checkpoint_index(cps2[a]) <= #[trigger] checkpoint_index(cps2[b]) by {
        assert(cps2[a] == cps[a] && cps2[b] == cps[b]);
        assert(checkpoint_index(cps[a]) <= checkpoint_index(cps[b]));
    }
    let ol = open_list(is_open, 8);
    assert forall|t: int| 0 <= t < ol.len() implies cps2[#[trigger] ol[t]] == cps[ol[t]] by {
        assert(ol[t] < 8);
    }
    lemma_operator_nodes_cps(depth, d0, ol, cps, cps2);
}

/// A larger size keeps `operators_ok`.
pub proof fn lemma_operators_ok_grow(depth: Seq<(u16, int)>, size: int, size2: int, d0: Seq<(u16, int)>, s0: int, is_open: Seq<bool>, cps: Seq<Checkpoint>)
    requires
        operators_ok(depth, size, d0, s0, is_open, cps),
        size <= size2,
    ensures
        operators_ok(depth, size2, d0, s0, is_open, cps),
{
    assert forall|k: int| 0 <= k < 9 implies s0 <= #[trigger] checkpoint_index(cps[k]) <= size2 by {
        assert(checkpoint_index(cps[k]) <= size);
    }
}

/// What holds between operators in `scan_expression`: the checkpoints of the
/// priority levels lie, in increasing order, between the size at entry and the
/// current size, and the open operator nodes start at their level's checkpoint.
pub open spec fn operators_ok(
    depth: Seq<(u16, int)>,
    size: int,
    d0: Seq<(u16, int)>,
    s0: int,
    is_open: Seq<bool>,
    cps: Seq<Checkpoint>,
) -> bool {
    &&& cps.len() == 10
    &&& is_open.len() == 8
    &&& 0 <= s0 <= size
    &&& d0.len() > 0 ==> d0.last().1 <= s0
    &&& forall|k: int| 0 <= k < 9 ==> s0 <= #[trigger] checkpoint_index(cps[k]) <= size
    &&& forall|a: int, b: int| 0 <= a <= b < 9 ==> #[trigger] checkpoint_index(cps[a]) <= #[trigger] checkpoint_index(cps[b])
    &&& operator_nodes(depth, d0, open_list(is_open, 8), cps)
}

pub struct Generator {
    text_len: usize,
    added: u64,
    lexer: TokenGenerator,
    builder: GreenNodeBuilder<'static>,
    errors: Vec<Error>,
    token_cache: Option<Tok>,
}

/// Ranks of the scanning methods: a method calls one of lower rank without
/// having read a token, and one of any rank only after reading one.
/// A token read at index `i` whose text ends at index `e` has byte offsets
/// within the text, and starts before its end.
proof fn lemma_tok_bytes(s: Seq<char>, i: int, e: int)
    requires
        0 <= i < s.len(),
        i <= e <= s.len(),
    ensures
        0 <= byte_offset(s, i) <= byte_offset(s, e) <= byte_length(s),
        byte_offset(s, i) < byte_length(s),
{
    lemma_byte_offset_mono(s, 0, i);
    lemma_byte_offset_mono(s, i, e);
    lemma_byte_offset_mono(s, e, s.len() as int);
    lemma_byte_offset_mono(s, i, s.len() as int);
}

/// A token of whitespace, a line break or a comment, as the builder holds it.
pub open spec fn trivia_element(e: (bool, u16)) -> bool {
    !e.0 && (e.1 == spec_raw(SyntaxKind::Whitespace) || e.1 == spec_raw(SyntaxKind::Newline) || e.1
        == spec_raw(SyntaxKind::Comment))
}

pub open spec fn rank_block() -> nat { 0 }
pub open spec fn rank_part() -> nat { 1 }
pub open spec fn rank_expression() -> nat { 2 }
pub open spec fn rank_list() -> nat { 3 }
pub open spec fn rank_arguments() -> nat { 4 }
pub open spec fn rank_preexp() -> nat { 5 }
pub open spec fn rank_preexp_statement() -> nat { 6 }
pub open spec fn rank_statement() -> nat { 7 }

/// The kind of token and the priority (1 to 8, higher binds tighter) with
/// which a token joins two expressions; priority 0 for a token that is no
/// binary operator. `~=` builds its node with the `<` kind.
pub open spec fn spec_binary_operator(k: TokenKind) -> (SyntaxKind, usize) {
    match k {
        TokenKind::Plus => (SyntaxKind::Plus, 5),
        TokenKind::Asterisk => (SyntaxKind::Asterisk, 6),
        TokenKind::Slash => (SyntaxKind::Slash, 6),
        TokenKind::Modulo => (SyntaxKind::Modulo, 6),
        TokenKind::Hat => (SyntaxKind::Hat, 8),
        TokenKind::DoubleDot => (SyntaxKind::DoubleDot, 4),
        TokenKind::LessThan => (SyntaxKind::LessThan, 3),
        TokenKind::LessThanOrEquals => (SyntaxKind::LessThanOrEquals, 3),
        TokenKind::GreaterThan => (SyntaxKind::GreaterThan, 3),
        TokenKind::GreaterThanOrEquals => (SyntaxKind::GreaterThanOrEquals, 3),
        TokenKind::EqualsBoolean => (SyntaxKind::EqualsBoolean, 3),
        TokenKind::NotEqualsBoolean => (SyntaxKind::LessThan, 3),
        _ => (SyntaxKind::Invalid, 0),
    }
}

/// How tightly an operator token binds in a node of kind `node`: `or` 1,
/// `and` 2, comparisons 3, `..` 4, `+` and `-` 5, `*`, `/` and `%` 6, the
/// unary `not`, `-` and `#` 7, `^` 8; 0 for anything else.
pub open spec fn operator_priority(token: SyntaxKind, node: SyntaxKind) -> usize {
    if node is UnaryExpression {
        if token is NotKeyword || token is Minus || token is Hash {
            7
        } else {
            0
        }
    } else if token is OrKeyword {
        1
    } else if token is AndKeyword {
        2
    } else if token is LessThan || token is LessThanOrEquals || token is GreaterThan
        || token is GreaterThanOrEquals || token is EqualsBoolean || token is NotEqualsBoolean {
        3
    } else if token is DoubleDot {
        4
    } else if token is Plus || token is Minus {
        5
    } else if token is Asterisk || token is Slash || token is Modulo {
        6
    } else if token is Hat {
        8
    } else {
        0
    }
}

/// Operator precedence: `or` binds loosest, then `and`, the comparisons (all
/// alike), `..`, `+` and `-`, then `*`, `/` and `%`; the unary `not`, `-` and
/// `#` bind tighter than every binary operator but `^`, which binds tightest.
pub proof fn law_operator_precedence()
    ensures
        ({
            let b = SyntaxKind::BinaryExpression;
            let u = SyntaxKind::UnaryExpression;
            let cmp_level = operator_priority(SyntaxKind::EqualsBoolean, b);
            &&& 0 < operator_priority(SyntaxKind::OrKeyword, b)
            &&& operator_priority(SyntaxKind::OrKeyword, b) < operator_priority(SyntaxKind::AndKeyword, b)
            &&& operator_priority(SyntaxKind::AndKeyword, b) < cmp_level
            &&& operator_priority(SyntaxKind::LessThan, b) == cmp_level
            &&& operator_priority(SyntaxKind::LessThanOrEquals, b) == cmp_level
            &&& operator_priority(SyntaxKind::GreaterThan, b) == cmp_level
            &&& operator_priority(SyntaxKind::GreaterThanOrEquals, b) == cmp_level
            &&& operator_priority(SyntaxKind::NotEqualsBoolean, b) == cmp_level
            &&& cmp_level < operator_priority(SyntaxKind::DoubleDot, b)
            &&& operator_priority(SyntaxKind::DoubleDot, b) < operator_priority(SyntaxKind::Plus, b)
            &&& operator_priority(SyntaxKind::Minus, b) == operator_priority(SyntaxKind::Plus, b)
            &&& operator_priority(SyntaxKind::Plus, b) < operator_priority(SyntaxKind::Asterisk, b)
            &&& operator_priority(SyntaxKind::Slash, b) == operator_priority(SyntaxKind::Asterisk, b)
            &&& operator_priority(SyntaxKind::Modulo, b) == operator_priority(SyntaxKind::Asterisk, b)
            &&& operator_priority(SyntaxKind::Asterisk, b) < operator_priority(SyntaxKind::NotKeyword, u)
            &&& operator_priority(SyntaxKind::Minus, u) == operator_priority(SyntaxKind::NotKeyword, u)
            &&& operator_priority(SyntaxKind::Hash, u) == operator_priority(SyntaxKind::NotKeyword, u)
            &&& operator_priority(SyntaxKind::NotKeyword, u) < operator_priority(SyntaxKind::Hat, b)
            &&& operator_priority(SyntaxKind::Hat, b) <= 8
        }),
{
}

/// Each binary operator token joins two expressions under the node token of
/// the same name, at its precedence (`~=` under the `<` kind); every other
/// token joins nothing.
pub proof fn law_binary_operator_tokens(k: TokenKind)
    ensures
        k is Plus ==> spec_binary_operator(k).0 is Plus,
        k is Asterisk ==> spec_binary_operator(k).0 is Asterisk,
        k is Slash ==> spec_binary_operator(k).0 is Slash,
        k is Modulo ==> spec_binary_operator(k).0 is Modulo,
        k is Hat ==> spec_binary_operator(k).0 is Hat,
        k is DoubleDot ==> spec_binary_operator(k).0 is DoubleDot,
        k is LessThan ==> spec_binary_operator(k).0 is LessThan,
        k is LessThanOrEquals ==> spec_binary_operator(k).0 is LessThanOrEquals,
        k is GreaterThan ==> spec_binary_operator(k).0 is GreaterThan,
        k is GreaterThanOrEquals ==> spec_binary_operator(k).0 is GreaterThanOrEquals,
        k is EqualsBoolean ==> spec_binary_operator(k).0 is EqualsBoolean,
        k is NotEqualsBoolean ==> spec_binary_operator(k).0 is LessThan,
        spec_binary_operator(k).1 > 0 ==> spec_binary_operator(k).1 == operator_priority(
            if k is NotEqualsBoolean { SyntaxKind::NotEqualsBoolean } else { spec_binary_operator(k).0 },
            SyntaxKind::BinaryExpression,
        ),
        !(k is Plus || k is Asterisk || k is Slash || k is Modulo || k is Hat || k is DoubleDot
            || k is LessThan || k is LessThanOrEquals || k is GreaterThan || k is GreaterThanOrEquals
            || k is EqualsBoolean || k is NotEqualsBoolean) ==> spec_binary_operator(k).1 == 0,
{
}

/// The binary operator that a token stands for (see `spec_binary_operator`).
fn binary_operator(k: TokenKind) -> (r: (SyntaxKind, usize))
    ensures
        r == spec_binary_operator(k),
{
    match k {
        TokenKind::Plus => (SyntaxKind::Plus, 5),
        TokenKind::Asterisk => (SyntaxKind::Asterisk, 6),
        TokenKind::Slash => (SyntaxKind::Slash, 6),
        TokenKind::Modulo => (SyntaxKind::Modulo, 6),
        TokenKind::Hat => (SyntaxKind::Hat, 8),
        TokenKind::DoubleDot => (SyntaxKind::DoubleDot, 4),
        TokenKind::LessThan => (SyntaxKind::LessThan, 3),
        TokenKind::LessThanOrEquals => (SyntaxKind::LessThanOrEquals, 3),
        TokenKind::GreaterThan => (SyntaxKind::GreaterThan, 3),
        TokenKind::GreaterThanOrEquals => (SyntaxKind::GreaterThanOrEquals, 3),
        TokenKind::EqualsBoolean => (SyntaxKind::EqualsBoolean, 3),
        TokenKind::NotEqualsBoolean => (SyntaxKind::LessThan, 3),
        _ => (SyntaxKind::Invalid, 0),
    }
}

/// The UTF-8 byte length of `v`, when it fits in 32 bits; otherwise some
/// larger number.
fn capped_byte_length(v: &Vec<char>) -> (n: u64)
    ensures
        n <= u32::MAX ==> n == byte_length(v@),
        n > u32::MAX ==> byte_length(v@) > u32::MAX,
{
    let mut i: usize = 0;
    let mut sum: u64 = 0;
    while i < v.len()
        invariant
            i <= v@.len(),
            sum == byte_offset(v@, i as int),
            sum <= u32::MAX,
        decreases v@.len() - i,
    {
        sum = sum + len_utf8(v[i]) as u64;
        i = i + 1;
        if sum > 4294967295u64 {
            proof {
                lemma_byte_offset_mono(v@, i as int, v@.len() as int);
            }
            return sum;
        }
    }
    sum
}

/// The byte length of two texts one after the other is the sum of theirs.
proof fn lemma_byte_length_concat(a: Seq<char>, b: Seq<char>)
    ensures
        byte_length(a + b) == byte_length(a) + byte_length(b),
    decreases b.len(),
{
    if b.len() == 0 {
        assert(a + b =~= a);
    } else {
        let b1 = b.drop_last();
        lemma_byte_length_concat(a, b1);
        assert((a + b).drop_last() =~= a + b1);
        lemma_byte_offset_prefix(a + b, (a + b).len() - 1);
        lemma_byte_offset_prefix(b, b.len() - 1);
    }
}

/// The byte offset of index `i` depends only on the characters before it.
proof fn lemma_byte_offset_prefix(s: Seq<char>, i: int)
    requires
        0 <= i <= s.len(),
    ensures
        byte_offset(s, i) == byte_length(s.take(i)),
    decreases i,
{
    if i > 0 {
        lemma_byte_offset_prefix(s, i - 1);
        lemma_byte_offset_prefix(s.take(i), i - 1);
        assert(s.take(i).take(i - 1) =~= s.take(i - 1));
    }
}

impl Generator {
    pub closed spec fn n(&self) -> int {
        self.lexer.text().len() as int
    }

    pub closed spec fn inv(&self) -> bool {
        &&& self.lexer.wf()
        &&& 0 <= self.lexer.index() <= self.n()
        &&& self.n() < usize::MAX
        &&& self.text_len == byte_length(self.lexer.text())
        &&& builder_ok(self.builder)
        &&& self.added == byte_length(added_text(self.builder))
        &&& self.added <= u32::MAX
        &&& self.token_cache matches Some(t) ==> tok_ok(t, self.lexer.text()) && t.first
            < self.lexer.index() && self.lexer.index() == next_index(self.lexer.text(), t.first as int)
        &&& forall|i: int|
            0 <= i < self.errors@.len() ==> #[trigger] self.errors@[i].start <= self.text_len
                && self.errors@[i].end <= self.text_len
    }

    /// The character index where the next token to be taken starts: that of
    /// the token looked at, or the lexer's position.
    pub closed spec fn read_pos(&self) -> int {
        match self.token_cache {
            Some(t) => t.first as int,
            None => self.lexer.index(),
        }
    }

    /// What is left to read: the unread characters, and one for a token
    /// that was looked at and not yet taken.
    pub closed spec fn progress(&self) -> nat {
        ((self.n() - self.lexer.index()) + if self.token_cache is Some {
            1int
        } else {
            0int
        }) as nat
    }

    pub closed spec fn depth(&self) -> Seq<(u16, int)> {
        open_nodes(self.builder)
    }

    pub closed spec fn size(&self) -> int {
        built_elements(self.builder).len() as int
    }

    /// The elements built at the open levels, in order: whether each is a
    /// node, and its raw kind.
    pub closed spec fn built(&self) -> Seq<(bool, u16)> {
        built_elements(self.builder)
    }

    /// The last element built.
    pub closed spec fn last_built(&self) -> (bool, u16) {
        built_elements(self.builder).last()
    }

    /// The elements from index `n` on are tokens of whitespace, line breaks or
    /// comments.
    pub closed spec fn trivia_from(&self, n: int) -> bool {
        forall|i: int| n <= i < self.size() ==> #[trigger] trivia_element(built_elements(self.builder)[i])
    }

    /// The elements built before are kept, and the ones after index `n` are
    /// tokens of whitespace, line breaks or comments.
    pub closed spec fn extends_with_trivia(&self, before: &Generator, n: int) -> bool {
        &&& before.size() <= self.size()
        &&& built_elements(self.builder).take(before.size()) == built_elements(before.builder)
        &&& forall|i: int| n <= i < self.size() ==> #[trigger] trivia_element(built_elements(self.builder)[i])
    }

    /// The text, the invariant and the errors found so far are kept, and
    /// nothing that was read becomes unread.
    pub closed spec fn keeps(&self, before: &Generator) -> bool {
        &&& self.inv()
        &&& self.lexer.text() == before.lexer.text()
        &&& self.text_len == before.text_len
        &&& self.progress() <= before.progress()
        &&& before.read_pos() <= self.read_pos()
        &&& before.errors@.len() <= self.errors@.len()
        &&& forall|i: int| 0 <= i < before.errors@.len() ==> #[trigger] self.errors@[i] == before.errors@[i]
    }

    /// When the token looked at starts a literal value, it was read.
    pub closed spec fn reads_if_value(&self, before: &Generator) -> bool {
        (before.token_cache matches Some(t) && opens_value(t.token.kind)) ==> self.progress()
            < before.progress()
    }

    /// `keeps`, and the open nodes are as before, with at least as many elements.
    pub closed spec fn balanced(&self, before: &Generator) -> bool {
        &&& self.keeps(before)
        &&& self.depth() == before.depth()
        &&& self.size() >= before.size()
    }

    pub fn new(text: &str) -> (g: Generator)
        ensures
            g.inv(),
            g.text() == text@,
            g.errors_view() == Seq::<Error>::empty(),
            g.fresh(),
    {
        let lexer = TokenGenerator::new(text);
        proof {
            lexer.lemma_wf();
        }
        let _ = lexer.char_count();
        let text_len = lexer.text_length();
        Generator { text_len, added: 0, lexer, builder: new_builder(), errors: Vec::new(), token_cache: None }
    }

    /// What a `for` statement leaves: at least one new element, and either a
    /// single `ForCountLoop` or `ForInLoop` node, or the bare `for` keyword
    /// token where an error was recorded or the text ended.
    pub closed spec fn for_outcome(&self, before: &Generator) -> bool {
        &&& self.size() > before.size()
        &&& (self.size() == before.size() + 1 && (self.last_built() == (true, spec_raw(
            SyntaxKind::ForCountLoop,
        )) || self.last_built() == (true, spec_raw(SyntaxKind::ForInLoop))))
            || (self.built()[before.size()] == (false, spec_raw(SyntaxKind::ForKeyword))
            && (self.errors_view().len() > before.errors_view().len() || self.progress() == 0))
    }

    /// What a `local` statement leaves: at least one new element, and either a
    /// single `FunctionDefinition` or `LocalAssignStatement` node, or the bare
    /// `local` keyword token where an error was recorded or the text ended, or
    /// a `NameList` node followed only by whitespace, line breaks or comments.
    pub closed spec fn local_outcome(&self, before: &Generator) -> bool {
        &&& self.size() > before.size()
        &&& (self.size() == before.size() + 1 && (self.last_built() == (true, spec_raw(
            SyntaxKind::FunctionDefinition,
        )) || self.last_built() == (true, spec_raw(SyntaxKind::LocalAssignStatement))))
            || (self.built()[before.size()] == (false, spec_raw(SyntaxKind::LocalKeyword))
            && (self.errors_view().len() > before.errors_view().len() || self.progress() == 0))
            || exists|j: int|
            before.size() < j < self.size() && #[trigger] self.built()[j] == (true, spec_raw(
                SyntaxKind::NameList,
            )) && self.trivia_from(j + 1)
    }

    /// The next token: the one looked at, or the one the lexer reads next;
    /// None at the end of the text.
    pub closed spec fn next_token(&self) -> Option<Token> {
        match self.token_cache {
            Some(t) => Some(t.token),
            None => if self.lexer.index() < self.n() {
                Some(token_at(self.lexer.text(), self.lexer.index()))
            } else {
                None
            },
        }
    }

    /// Exactly one element was added since `before`: a node of kind `kind`.
    pub closed spec fn adds_one_node(&self, before: &Generator, kind: SyntaxKind) -> bool {
        self.size() == before.size() + 1 && self.last_built() == (true, spec_raw(kind))
    }

    /// Nothing was read and nothing built yet.
    pub closed spec fn fresh(&self) -> bool {
        &&& self.depth().len() == 0
        &&& self.size() == 0
        &&& self.token_cache is None
        &&& self.lexer.index() == 0
    }

    pub closed spec fn text(&self) -> Seq<char> {
        self.lexer.text()
    }

    pub fn errors(&self) -> (e: &Vec<Error>)
        ensures
            e@ == self.errors_view(),
    {
        &self.errors
    }

    pub closed spec fn errors_view(&self) -> Seq<Error> {
        self.errors@
    }

    fn chars_of(&self, t: Tok) -> (v: Vec<char>)
        requires
            self.inv(),
            tok_ok(t, self.text()),
        ensures
            v@ == self.text().subrange(t.first as int, t.last as int),
    {
        self.lexer.chars_between(t.first, t.last)
    }

    fn keyword(&self, t: Tok) -> (k: SyntaxKind)
        requires
            self.inv(),
            tok_ok(t, self.text()),
        ensures
            k == spec_keyword(self.text().subrange(t.first as int, t.last as int)),
    {
        keyword_of(&self.chars_of(t))
    }

    fn push_error(&mut self, start: usize, end: usize, kind: ErrorKind)
        requires
            old(self).inv(),
            start <= byte_length(old(self).text()),
            end <= byte_length(old(self).text()),
        ensures
            final(self).balanced(old(self)),
            final(self).progress() == old(self).progress(),
            final(self).token_cache == old(self).token_cache,
            final(self).errors@ == old(self).errors@.push(Error { start, end, kind }),
            final(self).builder == old(self).builder,
            final(self).lexer == old(self).lexer,
    {
        self.errors.push(Error { start, end, kind });
    }

    // --- the tree builder ---
    /// Adds a token of the given kind with the text of `t`.
    fn b_token(&mut self, kind: SyntaxKind, t: Tok)
        requires
            old(self).inv(),
            tok_ok(t, old(self).text()),
        ensures
            final(self).keeps(old(self)),
            final(self).progress() == old(self).progress(),
            final(self).token_cache == old(self).token_cache,
            final(self).depth() == old(self).depth(),
            final(self).size() == old(self).size() + 1,
            final(self).built() == old(self).built().push((false, spec_raw(kind))),
            final(self).errors@ == old(self).errors@,
            final(self).tree_text() == old(self).tree_text() + old(self).text().subrange(
                t.first as int,
                t.last as int,
            ) || final(self).tree_text() == old(self).tree_text(),
            byte_length(old(self).tree_text()) + byte_length(
                old(self).text().subrange(t.first as int, t.last as int),
            ) <= u32::MAX ==> final(self).tree_text() == old(self).tree_text() + old(self).text().subrange(
                t.first as int,
                t.last as int,
            ),
            final(self).trees() == old(self).trees().push(
                GreenTree::Token(
                    spec_raw(kind),
                    old(self).kept_text(old(self).text().subrange(t.first as int, t.last as int)),
                ),
            ),
    {
        let text = self.chars_of(t);
        self.b_token_chars(kind, &text);
    }

    /// Adds a token of the given kind with the given text. rowan keeps the
    /// length of a tree's text in 32 bits; a token whose text would take the
    /// tree past that is added with no text.
    fn b_token_chars(&mut self, kind: SyntaxKind, text: &Vec<char>)
        requires
            old(self).inv(),
        ensures
            final(self).keeps(old(self)),
            final(self).progress() == old(self).progress(),
            final(self).token_cache == old(self).token_cache,
            final(self).depth() == old(self).depth(),
            final(self).size() == old(self).size() + 1,
            final(self).built() == old(self).built().push((false, spec_raw(kind))),
            final(self).errors@ == old(self).errors@,
            final(self).tree_text() == old(self).tree_text() + text@ || final(self).tree_text()
                == old(self).tree_text(),
            byte_length(old(self).tree_text()) + byte_length(text@) <= u32::MAX
                ==> final(self).tree_text() == old(self).tree_text() + text@,
            final(self).trees() == old(self).trees().push(
                GreenTree::Token(spec_raw(kind), old(self).kept_text(text@)),
            ),
    {
        let n = capped_byte_length(text);
        if n <= 4294967295u64 - self.added {
            proof {
                lemma_byte_length_concat(added_text(self.builder), text@);
            }
            add_token(&mut self.builder, to_raw(kind), text.as_slice());
            self.added = self.added + n;
        } else {
            let none: Vec<char> = Vec::new();
            proof {
                assert(added_text(self.builder) + none@ =~= added_text(self.builder));
            }
            add_token(&mut self.builder, to_raw(kind), none.as_slice());
        }
    }

    /// The text of the tokens added to the tree so far, in order.
    pub closed spec fn tree_text(&self) -> Seq<char> {
        added_text(self.builder)
    }

    /// The elements finished so far at the open levels, in order, with their
    /// contents.
    pub closed spec fn trees(&self) -> Seq<GreenTree> {
        built_trees(self.builder)
    }

    /// Reading a run of whitespace, line breaks and comments from `before`:
    /// the run is read to its end, its tokens are added to the tree with
    /// their kinds and texts, and its unclosed comments are recorded.
    #[verifier::opaque]
    pub closed spec fn read_trivia(&self, before: &Generator) -> bool {
        let s = before.text();
        let p = before.read_pos();
        &&& self.read_pos() == trivia_end(s, p)
        &&& self.errors@ == before.errors@ + trivia_errors(s, p)
        &&& self.trees().take(before.trees().len() as int) == before.trees()
        &&& self.trees().len() == before.trees().len() + trivia_tokens(s, p).len()
        &&& forall|i: int|
            0 <= i < trivia_tokens(s, p).len() ==> kept_token(
                #[trigger] self.trees()[before.trees().len() + i],
                trivia_tokens(s, p)[i].0,
                trivia_tokens(s, p)[i].1,
            )
    }

    /// The characters of the next token: from where it starts to where its
    /// text ends.
    pub closed spec fn next_text(&self) -> Seq<char> {
        self.text().subrange(self.read_pos(), spec_scan(self.text(), self.read_pos()).1)
    }

    /// The text a token added next keeps: all of it while the tree's text
    /// stays within rowan's 32-bit length, none past that.
    pub closed spec fn kept_text(&self, text: Seq<char>) -> Seq<char> {
        if byte_length(added_text(self.builder)) + byte_length(text) <= u32::MAX {
            text
        } else {
            Seq::empty()
        }
    }

    fn b_start(&mut self, kind: SyntaxKind)
        requires
            old(self).inv(),
        ensures
            final(self).keeps(old(self)),
            final(self).progress() == old(self).progress(),
            final(self).token_cache == old(self).token_cache,
            final(self).depth() == old(self).depth().push((spec_raw(kind), old(self).size())),
            final(self).size() == old(self).size(),
            final(self).built() == old(self).built(),
            final(self).errors@ == old(self).errors@,
            final(self).trees() == old(self).trees(),
            final(self).tree_text() == old(self).tree_text(),
    {
        start_node(&mut self.builder, to_raw(kind));
    }

    fn b_finish(&mut self)
        requires
            old(self).inv(),
            old(self).depth().len() > 0,
        ensures
            final(self).keeps(old(self)),
            final(self).progress() == old(self).progress(),
            final(self).token_cache == old(self).token_cache,
            final(self).depth() == old(self).depth().drop_last(),
            final(self).size() == old(self).depth().last().1 + 1,
            built_elements(final(self).builder).last() == (true, old(self).depth().last().0),
            final(self).built() == old(self).built().take(old(self).depth().last().1).push(
                (true, old(self).depth().last().0),
            ),
            final(self).errors@ == old(self).errors@,
            final(self).trees() == old(self).trees().take(old(self).depth().last().1).push(
                GreenTree::Node(old(self).depth().last().0, old(self).trees().skip(old(self).depth().last().1)),
            ),
            final(self).tree_text() == old(self).tree_text(),
    {
        finish_node(&mut self.builder);
        assert(self.inv());
    }

    fn b_checkpoint(&self) -> (c: Checkpoint)
        ensures
            checkpoint_index(c) == self.size(),
    {
        checkpoint(&self.builder)
    }

    fn b_start_at(&mut self, c: Checkpoint, kind: SyntaxKind)
        requires
            old(self).inv(),
            checkpoint_index(c) <= old(self).size(),
            old(self).depth().len() > 0 ==> old(self).depth().last().1 <= checkpoint_index(c),
            0 <= checkpoint_index(c),
        ensures
            final(self).keeps(old(self)),
            final(self).progress() == old(self).progress(),
            final(self).token_cache == old(self).token_cache,
            final(self).depth() == old(self).depth().push((spec_raw(kind), checkpoint_index(c))),
            final(self).size() == old(self).size(),
            final(self).built() == old(self).built(),
            final(self).errors@ == old(self).errors@,
            final(self).trees() == old(self).trees(),
            final(self).tree_text() == old(self).tree_text(),
    {
        start_node_at(&mut self.builder, c, to_raw(kind));
        assert(self.inv());
    }

    // --- reading tokens ---
    fn next_raw_token(&mut self) -> (r: Option<Tok>)
        requires
            old(self).inv(),
        ensures
            final(self).keeps(old(self)),
            final(self).depth() == old(self).depth(),
            final(self).size() == old(self).size(),
            final(self).token_cache is None,
            r matches Some(t) ==> tok_ok(t, old(self).text()) && final(self).progress() < old(
                self,
            ).progress(),
            old(self).token_cache matches Some(t) ==> r == Some(t),
            r is None ==> final(self).progress() == 0,
            r matches Some(t) ==> final(self).read_pos() == next_index(final(self).text(), t.first as int),
            final(self).builder == old(self).builder,
            final(self).errors == old(self).errors,
    {
        if let Some(t) = self.token_cache {
            self.token_cache = None;
            return Some(t);
        }
        let ghost s = self.lexer.text();
        let ghost i = self.lexer.index();
        match self.lexer.next_scanned() {
            Some((token, first, last)) => {
                proof {
                    lemma_tok_bytes(s, i, last as int);
                    assert(first as int == i);
                }
                Some(Tok { token, first, last })
            },
            None => None,
        }
    }

    fn peek_raw_token(&mut self) -> (r: Option<Tok>)
        requires
            old(self).inv(),
        ensures
            final(self).keeps(old(self)),
            final(self).depth() == old(self).depth(),
            final(self).size() == old(self).size(),
            final(self).token_cache == r,
            r matches Some(t) ==> tok_ok(t, old(self).text()),
            old(self).token_cache matches Some(t) ==> r == Some(t) && *final(self) == *old(self),
            r is None ==> final(self).progress() == 0 && old(self).progress() == 0,
            r is Some ==> final(self).progress() > 0,
            final(self).read_pos() == old(self).read_pos(),
            final(self).builder == old(self).builder,
            final(self).errors == old(self).errors,
            old(self).token_cache is None && old(self).lexer.index() < old(self).n() ==> r is Some
                && r->0.token == token_at(old(self).text(), old(self).lexer.index()),
    {
        if let Some(t) = self.token_cache {
            return Some(t);
        }
        let ghost s = self.lexer.text();
        let ghost i = self.lexer.index();
        self.token_cache = match self.lexer.next_scanned() {
            Some((token, first, last)) => {
                proof {
                    lemma_tok_bytes(s, i, last as int);
                    assert(first as int == i);
                }
                Some(Tok { token, first, last })
            },
            None => None,
        };
        self.token_cache
    }

    fn get_current_position(&mut self) -> (p: usize)
        requires
            old(self).inv(),
        ensures
            final(self).keeps(old(self)),
            final(self).read_pos() == old(self).read_pos(),
            p == byte_offset(final(self).text(), final(self).read_pos()),
            p <= byte_length(final(self).text()),
            final(self).depth() == old(self).depth(),
            final(self).size() == old(self).size(),
            final(self).builder == old(self).builder,
            final(self).errors == old(self).errors,
    {
        let mut end = self.text_len;
        if let Some(t) = self.peek_raw_token() {
            end = t.token.start;
        }
        end
    }

    fn eat_whitespace(&mut self)
        requires
            old(self).inv(),
        ensures
            final(self).keeps(old(self)),
            final(self).depth() == old(self).depth(),
            final(self).size() >= old(self).size(),
            (old(self).token_cache matches Some(t) && !trivia(t.token.kind)) ==> *final(self)
                == *old(self),
            final(self).token_cache matches Some(t) ==> !trivia(t.token.kind),
            final(self).token_cache is None ==> final(self).progress() == 0,
            final(self).extends_with_trivia(old(self), old(self).size()),
            final(self).read_trivia(old(self)),
    {
        reveal(Generator::read_trivia);
        let ghost s = old(self).text();
        let ghost p0 = old(self).read_pos();
        let ghost tr0 = old(self).trees();
        let ghost e0 = old(self).errors@;
        let ghost toks0 = trivia_tokens(s, p0);
        let ghost errs0 = trivia_errors(s, p0);
        proof {
            assert(built_elements(self.builder).take(self.size()) =~= built_elements(self.builder));
            assert(self.trees().take(tr0.len() as int) =~= tr0);
            assert(e0 + errs0 =~= self.errors@ + trivia_errors(s, self.read_pos()));
        }
        loop
            invariant
                self.keeps(old(self)),
                self.depth() == old(self).depth(),
                self.size() >= old(self).size(),
                (old(self).token_cache matches Some(t) && !trivia(t.token.kind)) ==> *self
                    == *old(self),
                self.extends_with_trivia(old(self), old(self).size()),
                s == self.text(),
                p0 == old(self).read_pos(),
                tr0 == old(self).trees(),
                e0 == old(self).errors@,
                toks0 == trivia_tokens(s, p0),
                errs0 == trivia_errors(s, p0),
                trivia_end(s, self.read_pos()) == trivia_end(s, p0),
                self.errors@ + trivia_errors(s, self.read_pos()) == e0 + errs0,
                self.trees().len() >= tr0.len(),
                self.trees().take(tr0.len() as int) == tr0,
                toks0.len() == self.trees().len() - tr0.len() + trivia_tokens(s, self.read_pos()).len(),
                forall|j: int|
                    self.trees().len() - tr0.len() <= j < toks0.len() ==> #[trigger] toks0[j]
                        == trivia_tokens(s, self.read_pos())[j - (self.trees().len() - tr0.len())],
                forall|i: int|
                    0 <= i < self.trees().len() - tr0.len() ==> kept_token(
                        #[trigger] self.trees()[tr0.len() + i],
                        toks0[i].0,
                        toks0[i].1,
                    ),
            decreases self.progress(),
        {
            proof {
                reveal(Generator::read_trivia);
            }
            let t = match self.peek_raw_token() {
                Some(t) => t,
                None => {
                    proof {
                        assert(!trivia_at(s, self.read_pos()));
                        assert(trivia_errors(s, self.read_pos()) =~= Seq::<Error>::empty());
                        assert(self.errors@ + Seq::<Error>::empty() =~= self.errors@);
                    }
                    return;
                },
            };
            let ghost b0 = self.built();
            let ghost g0 = *self;
            let ghost rp = self.read_pos();
            proof {
                assert(t.first == rp);
                if trivia(t.token.kind) {
                    assert(trivia_at(s, rp));
                    assert(trivia_tokens(s, rp) == seq![(trivia_kind(spec_scan(s, rp).0), s.subrange(rp, spec_scan(s, rp).1))]
                        + trivia_tokens(s, next_index(s, rp)));
                } else {
                    assert(!trivia_at(s, rp));
                    assert(trivia_errors(s, rp) =~= Seq::<Error>::empty());
                    assert(self.errors@ + Seq::<Error>::empty() =~= self.errors@);
                }
            }
            match t.token.kind {
                TokenKind::Whitespace => { self.b_token(SyntaxKind::Whitespace, t); },
                TokenKind::Newline => { self.b_token(SyntaxKind::Newline, t); },
                TokenKind::Comment { validity: v, .. } => {
                    if v == token_validity::Comment::NotTerminated {
                        let len = self.text_len;
                        self.push_error(t.token.start, len, ErrorKind::NotClosedComment);
                    }
                    self.b_token(SyntaxKind::Comment, t);
                },
                _ => { return; },
            }
            proof {
                assert(self.built().take(old(self).size()) =~= b0.take(old(self).size()));
                assert(trivia_element(self.built().last()));
                assert(self.trees().take(tr0.len() as int) =~= tr0);
                let k = g0.trees().len() - tr0.len();
                assert(self.trees()[tr0.len() + k] == self.trees().last());
                assert(toks0[k] == trivia_tokens(s, rp)[0]);
                assert forall|i: int|
                    0 <= i < self.trees().len() - tr0.len() implies kept_token(
                        #[trigger] self.trees()[tr0.len() + i],
                        toks0[i].0,
                        toks0[i].1,
                    ) by {
                    if i < k {
                        assert(self.trees()[tr0.len() + i] == g0.trees()[tr0.len() + i]);
                    }
                }
                assert forall|j: int|
                    self.trees().len() - tr0.len() <= j < toks0.len() implies #[trigger] toks0[j]
                        == trivia_tokens(s, next_index(s, rp))[j - (self.trees().len() - tr0.len())] by {
                    assert(toks0[j] == trivia_tokens(s, rp)[j - k]);
                }
                match t.token.kind {
                    TokenKind::Comment { validity: token_validity::Comment::NotTerminated, .. } => {
                        assert(self.errors@ + trivia_errors(s, next_index(s, rp)) =~= g0.errors@ + trivia_errors(s, rp));
                    },
                    _ => {
                        assert(self.errors@ + trivia_errors(s, next_index(s, rp)) =~= g0.errors@ + trivia_errors(s, rp));
                    },
                }
            }
            self.next_raw_token();
        }
    }

    fn scan_function_identifier(&mut self, token: Tok) -> (k: ExpressionKind)
        requires
            old(self).inv(),
            tok_ok(token, old(self).text()),
        ensures
            final(self).balanced(old(self)),
            final(self).size() == old(self).size() + 1,
            final(self).last_built() == (true, spec_raw(SyntaxKind::Identifier)),
            k is FunctionCall || k is Name || k is Identifier || k is Nothing,
    {
        self.b_start(SyntaxKind::Identifier);
        let ghost d0 = self.depth();
        let mut t = token;
        let mut skip_forward = false;
        let mut id_expected = true;
        let mut terminate_next = false;
        let mut multiple_ids = false;
        loop
            invariant_except_break
                skip_forward ==> (self.token_cache == Some(t) || trivia(t.token.kind)),
            invariant
                self.keeps(old(self)),
                self.depth() == d0,
                d0 == old(self).depth().push((spec_raw(SyntaxKind::Identifier), old(self).size())),
                self.size() >= old(self).size(),
                tok_ok(t, self.text()),
                tok_ok(token, self.text()),
            decreases self.progress() + if skip_forward { 0int } else { 1int },
        {
            match t.token.kind {
                TokenKind::Identifier => {
                    if !id_expected {
                        break;
                    }
                    let keyword_kind = self.keyword(t);
                    if keyword_kind != SyntaxKind::Name {
                        self.push_error(token.token.start, t.token.end, ErrorKind::InvalidName);
                        self.b_token(keyword_kind, t);
                    } else {
                        self.b_token(SyntaxKind::Name, t);
                    }
                    if skip_forward {
                        self.next_raw_token();
                    }
                    id_expected = false;
                    if terminate_next {
                        break;
                    }
                },
                TokenKind::Dot => {
                    if id_expected {
                        self.push_error(token.token.start, t.token.end, ErrorKind::InvalidName);
                        break;
                    }
                    self.b_token(SyntaxKind::Dot, t);
                    if skip_forward {
                        self.next_raw_token();
                    }
                    id_expected = true;
                    multiple_ids = true;
                },
                TokenKind::Colon => {
                    if id_expected {
                        self.push_error(token.token.start, t.token.end, ErrorKind::InvalidName);
                        break;
                    }
                    terminate_next = true;
                    id_expected = true;
                    multiple_ids = true;
                    self.b_token(SyntaxKind::Colon, t);
                    if skip_forward {
                        self.next_raw_token();
                    }
                },
                _ => {
                    break;
                },
            }
            skip_forward = true;
            match self.peek_raw_token() {
                Some(next) => {
                    t = next;
                },
                None => {
                    break;
                },
            }
            self.eat_whitespace();
        }
        self.b_finish();
        if terminate_next {
            ExpressionKind::FunctionCall
        } else if !multiple_ids {
            ExpressionKind::Name
        } else if !id_expected {
            ExpressionKind::Identifier
        } else {
            ExpressionKind::Nothing
        }
    }

    /// Reads one operand of an expression. A number or a string gives one
    /// `Literal` node, with an error where the number is malformed or the
    /// string not terminated; it always looks at the next token at least.
    fn scan_expression_part(&mut self) -> (k: ExpressionKind)
        requires
            old(self).inv(),
        ensures
            final(self).balanced(old(self)),
            final(self).reads_if_value(old(self)),
            final(self).token_cache is Some || final(self).progress() < old(self).progress()
                || final(self).progress() == 0,
            old(self).next_token() is Some && old(self).next_token()->0.kind is Number ==> ({
                let tk = old(self).next_token()->0;
                let errors = if tk.kind->Number_validity is Invalid {
                    old(self).errors@.push(Error { start: tk.start, end: tk.end, kind: ErrorKind::InvalidNumberFormat })
                } else {
                    old(self).errors@
                };
                &&& k is Literal
                &&& final(self).adds_one_node(old(self), SyntaxKind::Literal)
                &&& final(self).progress() < old(self).progress()
                &&& final(self).errors@ == errors
                &&& final(self).trees() == old(self).trees().push(
                    GreenTree::Node(
                        spec_raw(SyntaxKind::Literal),
                        seq![GreenTree::Token(spec_raw(SyntaxKind::Number), old(self).kept_text(old(self).next_text()))],
                    ),
                )
                &&& final(self).token_cache is None
                &&& final(self).read_pos() == next_index(old(self).text(), old(self).read_pos())
            }),
            old(self).next_token() is Some && old(self).next_token()->0.kind is String ==> ({
                let tk = old(self).next_token()->0;
                let errors = if tk.kind->String_validity is NotTerminated {
                    old(self).errors@.push(Error { start: tk.start, end: tk.end, kind: ErrorKind::NotTerminatedString })
                } else {
                    old(self).errors@
                };
                &&& k is Literal
                &&& final(self).adds_one_node(old(self), SyntaxKind::Literal)
                &&& final(self).progress() < old(self).progress()
                &&& final(self).errors@ == errors
                &&& final(self).trees() == old(self).trees().push(
                    GreenTree::Node(
                        spec_raw(SyntaxKind::Literal),
                        seq![GreenTree::Token(spec_raw(SyntaxKind::String), old(self).kept_text(old(self).next_text()))],
                    ),
                )
                &&& final(self).token_cache is None
                &&& final(self).read_pos() == next_index(old(self).text(), old(self).read_pos())
            }),
        decreases old(self).progress(), rank_part(),
    {
        let t = match self.peek_raw_token() {
            Some(t) => t,
            None => { return ExpressionKind::Nothing; },
        };
        let ghost entry = self.progress();
        match t.token.kind {
            TokenKind::Number { validity, .. } => {
                if validity == token_validity::Number::Invalid {
                    self.push_error(t.token.start, t.token.end, ErrorKind::InvalidNumberFormat);
                }
                self.next_raw_token();
                self.b_start(SyntaxKind::Literal);
                let ghost tr0 = self.trees();
                self.b_token(SyntaxKind::Number, t);
                let ghost tr1 = self.trees();
                self.b_finish();
                proof {
                    assert(tr1.skip(tr0.len() as int) =~= seq![tr1.last()]);
                    assert(tr1.take(tr0.len() as int) =~= tr0);
                    assert(t.first == old(self).read_pos());
                }
                return ExpressionKind::Literal;
            },
            TokenKind::String { validity, .. } => {
                if validity == token_validity::String::NotTerminated {
                    self.push_error(t.token.start, t.token.end, ErrorKind::NotTerminatedString);
                }
                self.next_raw_token();
                self.b_start(SyntaxKind::Literal);
                let ghost tr0 = self.trees();
                self.b_token(SyntaxKind::String, t);
                let ghost tr1 = self.trees();
                self.b_finish();
                proof {
                    assert(tr1.skip(tr0.len() as int) =~= seq![tr1.last()]);
                    assert(tr1.take(tr0.len() as int) =~= tr0);
                    assert(t.first == old(self).read_pos());
                }
                return ExpressionKind::Literal;
            },
            TokenKind::TripleDot => {
                self.next_raw_token();
                self.b_token(SyntaxKind::TripleDot, t);
                return ExpressionKind::Nested;
            },
            TokenKind::Identifier | TokenKind::LeftBracket => {
                let keyword_kind = self.keyword(t);
                match keyword_kind {
                    SyntaxKind::Name => {
                        return self.scan_name_expression(t);
                    },
                    SyntaxKind::NilKeyword | SyntaxKind::FalseKeyword | SyntaxKind::TrueKeyword => {
                        self.next_raw_token();
                        self.b_token(keyword_kind, t);
                        return ExpressionKind::Literal;
                    },
                    SyntaxKind::FunctionKeyword => {
                        self.next_raw_token();
                        self.b_start(SyntaxKind::FunctionDefinition);
                        self.b_token(SyntaxKind::FunctionKeyword, t);
                        if self.scan_parameters() {
                            self.scan_block(Some(SyntaxKind::EndKeyword), t);
                            self.b_finish();
                            return ExpressionKind::Literal;
                        } else {
                            self.b_finish();
                            return ExpressionKind::Nothing;
                        }
                    },
                    _ => {
                        return ExpressionKind::Nothing;
                    },
                }
            },
            TokenKind::LeftCurlyBracket => {
                self.next_raw_token();
                self.b_start(SyntaxKind::TableConstructor);
                self.b_token(SyntaxKind::LeftCurlyBracket, t);
                self.eat_whitespace();
                self.scan_field_list();
                self.eat_whitespace();
                match self.peek_raw_token() {
                    Some(t) => {
                        if t.token.kind != TokenKind::RightCurlyBracket {
                            self.push_error(t.token.start, t.token.end, ErrorKind::ExpectingClosingBracket);
                            self.b_finish();
                            return ExpressionKind::Nothing;
                        } else {
                            self.next_raw_token();
                            self.b_token(SyntaxKind::RightCurlyBracket, t);
                            self.b_finish();
                        }
                    },
                    None => {
                        self.b_finish();
                        return ExpressionKind::Nothing;
                    },
                }
                return ExpressionKind::Literal;
            },
            _ => {
                return ExpressionKind::Nothing;
            },
        }
    }

    /// The part of `scan_expression_part` that reads a name or a bracketed
    /// expression followed by indexing, method calls and calls.
    #[verifier::rlimit(100)]
    fn scan_name_expression(&mut self, first: Tok) -> (k: ExpressionKind)
        requires
            old(self).inv(),
            old(self).token_cache == Some(first),
            tok_ok(first, old(self).text()),
        ensures
            final(self).balanced(old(self)),
            (first.token.kind is LeftBracket || (first.token.kind is Identifier && spec_keyword(
                old(self).text().subrange(first.first as int, first.last as int),
            ) == SyntaxKind::Name)) ==> final(self).progress() < old(self).progress()
                && final(self).size() > old(self).size(),
        decreases old(self).progress(), rank_block(),
    {
        let ghost first_reads = first.token.kind is LeftBracket || (first.token.kind is Identifier
            && spec_keyword(self.text().subrange(first.first as int, first.last as int))
            == SyntaxKind::Name);
        let ghost entry = self.progress();
        let ghost d0 = self.depth();
        let ghost s0 = self.size();
        let mut kind = ExpressionKind::Nothing;
        if first.token.kind == TokenKind::LeftBracket {
            kind = ExpressionKind::Nested;
        }
        let checkpoint = self.b_checkpoint();
        let mut started_group = false;
        let mut mod_required = false;
        let mut consumed = false;
        loop
            invariant
                self.keeps(old(self)),
                entry == old(self).progress(),
                d0 == old(self).depth(),
                s0 == old(self).size(),
                checkpoint_index(checkpoint) == s0,
                self.size() >= s0,
                d0.len() > 0 ==> d0.last().1 <= s0,
                started_group ==> self.depth() == d0.push((spec_raw(SyntaxKind::Identifier), s0)),
                !started_group ==> self.depth() == d0,
                consumed ==> self.progress() < entry,
                !consumed ==> self.token_cache == Some(first) && !mod_required,
                consumed ==> self.size() > s0,
                first_reads == (first.token.kind is LeftBracket || (first.token.kind is Identifier
                    && spec_keyword(self.text().subrange(first.first as int, first.last as int))
                    == SyntaxKind::Name)),
            ensures
                first_reads ==> consumed,
            decreases self.progress(), if mod_required { 1int } else { 0int },
        {
            let mut new_kind = ExpressionKind::Nothing;
            let ghost p_top = self.progress();
            let ghost m_top = mod_required;
            match self.peek_raw_token() {
                Some(t) => {
                    match t.token.kind {
                        TokenKind::LeftBracket => {
                            self.next_raw_token();
                            consumed = true;
                            new_kind = self.scan_preexp(t);
                            mod_required = true;
                        },
                        TokenKind::Identifier => {
                            if mod_required {
                                break;
                            }
                            if self.keyword(t) == SyntaxKind::Name {
                                self.next_raw_token();
                                consumed = true;
                                new_kind = self.scan_preexp(t);
                            }
                        },
                        _ => {
                            if !mod_required {
                                break;
                            }
                        },
                    }
                },
                None => {},
            }
            if new_kind == ExpressionKind::Nothing && !mod_required {
                break;
            }
            let ghost m_mid = mod_required;
            mod_required = false;
            if kind == ExpressionKind::Nothing {
                kind = new_kind;
            } else {
                kind = ExpressionKind::Combined;
            }
            self.eat_whitespace();
            match self.peek_raw_token() {
                Some(t) => {
                    match t.token.kind {
                        TokenKind::Dot => {
                            if !started_group {
                                self.b_start_at(checkpoint, SyntaxKind::Identifier);
                                started_group = true;
                            }
                            self.b_token(SyntaxKind::Dot, t);
                            self.next_raw_token();
                        },
                        TokenKind::Colon => {
                            if !started_group {
                                self.b_start_at(checkpoint, SyntaxKind::Identifier);
                                started_group = true;
                            }
                            self.next_raw_token();
                            self.b_token(SyntaxKind::Colon, t);
                            self.eat_whitespace();
                            let start = t.token.start;
                            match self.peek_raw_token() {
                                Some(t) => {
                                    if t.token.kind != TokenKind::Identifier || self.keyword(t)
                                        != SyntaxKind::Name {
                                        self.push_error(t.token.start, t.token.end, ErrorKind::ExpectingName);
                                        break;
                                    } else {
                                        self.b_token(SyntaxKind::Name, t);
                                        self.next_raw_token();
                                        self.eat_whitespace();
                                        if !self.scan_arguments() {
                                            self.push_error(start, t.token.end, ErrorKind::ExpectingFunctionCall);
                                            break;
                                        }
                                    }
                                },
                                None => {},
                            }
                            mod_required = true;
                        },
                        TokenKind::LeftSquareBracket => {
                            if started_group {
                                self.b_finish();
                                started_group = false;
                            }
                            self.b_start_at(checkpoint, SyntaxKind::Identifier);
                            self.next_raw_token();
                            self.scan_indexing_variable(t);
                            self.b_finish();
                            mod_required = true;
                        },
                        TokenKind::LeftBracket | TokenKind::String { .. }
                        | TokenKind::LeftCurlyBracket => {
                            if started_group {
                                self.b_finish();
                                started_group = false;
                            }
                            self.b_start_at(checkpoint, SyntaxKind::FunctionCall);
                            self.scan_arguments();
                            self.b_finish();
                            mod_required = true;
                        },
                        _ => {
                            break;
                        },
                    }
                },
                None => {},
            }
            self.eat_whitespace();
        }
        if started_group {
            self.b_finish();
        }
        kind
    }

    /// Reads an expression: operands joined by operators, nested by priority.
    /// It stops before the first token that cannot continue the expression,
    /// which is then looked at, or at the end of the text.
    #[verifier::rlimit(60)]
    fn scan_expression(&mut self) -> (k: ExpressionKind)
        requires
            old(self).inv(),
        ensures
            final(self).balanced(old(self)),
            final(self).reads_if_value(old(self)),
            final(self).token_cache is Some || final(self).progress() == 0,
        decreases old(self).progress(), rank_expression(),
    {
        let ghost entry = self.progress();
        let ghost d0 = self.depth();
        let ghost s0 = self.size();
        let mut group_kind = ExpressionKind::Nothing;
        let mut binary_possible = false;
        let mut expecting_expression = true;
        let c0 = self.b_checkpoint();
        let mut checkpoints: Vec<Checkpoint> = Vec::new();
        let mut i: usize = 0;
        while i < 10
            invariant
                i <= 10,
                checkpoints@.len() == i,
                forall|k: int| 0 <= k < i ==> checkpoints@[k] == c0,
            decreases 10 - i,
        {
            checkpoints.push(c0);
            i = i + 1;
        }
        let mut is_open: Vec<bool> = vec![false, false, false, false, false, false, false, false];
        proof {
            lemma_open_list_none(is_open@, 8);
            assert(self.depth().take(d0.len() as int) =~= d0);
        }
        let mut first_round = true;
        loop
            invariant_except_break
                first_round ==> self.progress() == entry && expecting_expression && !binary_possible && *self == *old(self),
            invariant
                self.keeps(old(self)),
                entry == old(self).progress(),
                d0 == old(self).depth(),
                s0 == old(self).size(),
                d0.len() > 0 ==> d0.last().1 <= s0,
                operators_ok(self.depth(), self.size(), d0, s0, is_open@, checkpoints@),
                !first_round ==> self.reads_if_value(old(self)),
            ensures
                self.keeps(old(self)),
                operators_ok(self.depth(), self.size(), d0, s0, is_open@, checkpoints@),
                self.reads_if_value(old(self)),
                self.token_cache is Some || self.progress() == 0,
            decreases self.progress(), if expecting_expression && !binary_possible { 1int } else { 0int },
        {
            let t = match self.peek_raw_token() {
                Some(t) => t,
                None => { break; },
            };
            if expecting_expression && !binary_possible {
                let checkpoint = self.b_checkpoint();
                let ghost size_a = self.size();
                proof {
                    lemma_operators_ok_set9(self.depth(), self.size(), d0, s0, is_open@, checkpoints@, checkpoint);
                    assert(self.depth().len() > 0 ==> self.depth().last().1 <= checkpoint_index(checkpoint));
                }
                checkpoints.set(9, checkpoint);
                let part_kind = self.scan_expression_part();
                self.eat_whitespace();
                proof {
                    lemma_operators_ok_grow(self.depth(), size_a, self.size(), d0, s0, is_open@, checkpoints@);
                }
                if group_kind == ExpressionKind::Nothing {
                    group_kind = part_kind;
                }
                if part_kind != ExpressionKind::Nothing {
                    if part_kind != ExpressionKind::Name && part_kind != ExpressionKind::Literal {
                        self.b_start_at(checkpoint, SyntaxKind::Expression);
                        self.b_finish();
                        proof {
                            lemma_operators_ok_grow(self.depth(), size_a, self.size(), d0, s0, is_open@, checkpoints@);
                        }
                    }
                    binary_possible = true;
                    expecting_expression = false;
                    first_round = false;
                    continue;
                }
            }
            first_round = false;
            match t.token.kind {
                TokenKind::Identifier => {
                    let keyword_kind = self.keyword(t);
                    match keyword_kind {
                        SyntaxKind::NotKeyword => {
                            self.next_raw_token();
                            expecting_expression = true;
                            self.apply_operator(SyntaxKind::NotKeyword, SyntaxKind::UnaryExpression, 7, t, &mut checkpoints, &mut is_open, Ghost(d0), Ghost(s0));
                        },
                        SyntaxKind::AndKeyword => {
                            group_kind = ExpressionKind::Combined;
                            self.next_raw_token();
                            if binary_possible {
                                self.apply_operator(SyntaxKind::AndKeyword, SyntaxKind::BinaryExpression, 2, t, &mut checkpoints, &mut is_open, Ghost(d0), Ghost(s0));
                                expecting_expression = true;
                                binary_possible = false;
                            } else {
                                self.push_error(t.token.start, t.token.end, ErrorKind::UnexpectedOperator);
                            }
                        },
                        SyntaxKind::OrKeyword => {
                            group_kind = ExpressionKind::Combined;
                            self.next_raw_token();
                            if binary_possible {
                                self.apply_operator(SyntaxKind::OrKeyword, SyntaxKind::BinaryExpression, 1, t, &mut checkpoints, &mut is_open, Ghost(d0), Ghost(s0));
                                expecting_expression = true;
                                binary_possible = false;
                            } else {
                                self.push_error(t.token.start, t.token.end, ErrorKind::UnexpectedOperator);
                            }
                        },
                        _ => { break; },
                    }
                },
                TokenKind::Minus => {
                    group_kind = ExpressionKind::Combined;
                    self.next_raw_token();
                    if binary_possible {
                        self.apply_operator(SyntaxKind::Minus, SyntaxKind::BinaryExpression, 5, t, &mut checkpoints, &mut is_open, Ghost(d0), Ghost(s0));
                        expecting_expression = true;
                        binary_possible = false;
                    } else {
                        expecting_expression = true;
                        self.apply_operator(SyntaxKind::Minus, SyntaxKind::UnaryExpression, 7, t, &mut checkpoints, &mut is_open, Ghost(d0), Ghost(s0));
                    }
                },
                TokenKind::Hash => {
                    if binary_possible {
                        break;
                    }
                    self.next_raw_token();
                    group_kind = ExpressionKind::Combined;
                    expecting_expression = true;
                    self.apply_operator(SyntaxKind::Hash, SyntaxKind::UnaryExpression, 7, t, &mut checkpoints, &mut is_open, Ghost(d0), Ghost(s0));
                },
                _ => {
                    let (token_kind, priority): (SyntaxKind, usize) = binary_operator(t.token.kind);
                    if priority == 0 {
                        break;
                    }
                    group_kind = ExpressionKind::Combined;
                    self.next_raw_token();
                    if binary_possible {
                        self.apply_operator(token_kind, SyntaxKind::BinaryExpression, priority, t, &mut checkpoints, &mut is_open, Ghost(d0), Ghost(s0));
                        expecting_expression = true;
                        binary_possible = false;
                    } else {
                        self.push_error(t.token.start, t.token.end, ErrorKind::UnexpectedOperator);
                    }
                },
            }
            self.eat_whitespace();
        }
        if expecting_expression || !binary_possible {
            group_kind = ExpressionKind::Nothing;
        }
        proof {
            lemma_open_list_ok(is_open@, 8);
        }
        self.close_nodes(0, &mut is_open, Ghost(checkpoints@), Ghost(d0));
        proof {
            assert(self.depth() =~= self.depth().take(d0.len() as int));
        }
        group_kind
    }

    /// Finishes the open operator nodes of priority index `priority` and above.
    fn close_nodes(
        &mut self,
        priority: usize,
        is_open: &mut Vec<bool>,
        Ghost(cps): Ghost<Seq<Checkpoint>>,
        Ghost(d0): Ghost<Seq<(u16, int)>>,
    )
        requires
            old(self).inv(),
            priority <= 8,
            old(is_open)@.len() == 8,
            cps.len() == 10,
            operator_nodes(old(self).depth(), d0, open_list(old(is_open)@, 8), cps),
            open_list_ok(old(is_open)@, 8),
        ensures
            final(self).keeps(old(self)),
            final(self).progress() == old(self).progress(),
            final(self).token_cache == old(self).token_cache,
            final(is_open)@.len() == 8,
            forall|j: int| 0 <= j < priority ==> final(is_open)@[j] == old(is_open)@[j],
            forall|j: int| priority <= j < 8 ==> !final(is_open)@[j],
            open_list(final(is_open)@, 8) == open_list(old(is_open)@, priority as int),
            operator_nodes(final(self).depth(), d0, open_list(final(is_open)@, 8), cps),
            final(self).size() == old(self).size() || exists|j: int|
                priority <= j < 8 && old(is_open)@[j] && final(self).size() == checkpoint_index(
                    #[trigger] cps[j],
                ) + 1,
    {
        let mut j: usize = 8;
        let ghost o0 = is_open@;
        proof {
            lemma_open_list_ok(is_open@, 8);
        }
        while j > priority
            invariant
                self.keeps(old(self)),
                self.progress() == old(self).progress(),
                self.token_cache == old(self).token_cache,
                o0 == old(is_open)@,
                o0.len() == 8,
                priority <= j <= 8,
                is_open@.len() == 8,
                forall|k: int| 0 <= k < j ==> is_open@[k] == o0[k],
                forall|k: int| j <= k < 8 ==> !is_open@[k],
                open_list(is_open@, 8) == open_list(o0, j as int),
                operator_nodes(self.depth(), d0, open_list(is_open@, 8), cps),
                self.size() == old(self).size() || exists|k: int|
                    j <= k < 8 && o0[k] && self.size() == checkpoint_index(#[trigger] cps[k]) + 1,
            decreases j,
        {
            j = j - 1;
            if is_open[j] {
                proof {
                    lemma_open_list_ok(o0, j + 1);
                    assert(open_list(o0, j + 1) == open_list(o0, j as int).push(j as int));
                    lemma_operator_nodes_pop(self.depth(), d0, open_list(is_open@, 8), cps);
                }
                self.b_finish();
                is_open.set(j, false);
                proof {
                    lemma_open_list_upper(is_open@, j as int, 8);
                    lemma_open_list_update_eq(is_open@, o0, j as int);
                    assert(open_list(o0, j as int).push(j as int).drop_last() =~= open_list(o0, j as int));
                }
            } else {
                proof {
                    assert(open_list(o0, j + 1) == open_list(o0, j as int));
                }
            }
        }
    }

    fn apply_operator(
        &mut self,
        token_kind: SyntaxKind,
        operator_kind: SyntaxKind,
        priority: usize,
        t: Tok,
        checkpoints: &mut Vec<Checkpoint>,
        is_open: &mut Vec<bool>,
        Ghost(d0): Ghost<Seq<(u16, int)>>,
        Ghost(s0): Ghost<int>,
    )
        requires
            old(self).inv(),
            1 <= priority <= 8,
            priority == operator_priority(token_kind, operator_kind),
            tok_ok(t, old(self).text()),
            operators_ok(old(self).depth(), old(self).size(), d0, s0, old(is_open)@, old(checkpoints)@),
        ensures
            final(self).keeps(old(self)),
            final(self).progress() == old(self).progress(),
            final(self).token_cache == old(self).token_cache,
            operators_ok(final(self).depth(), final(self).size(), d0, s0, final(is_open)@, final(checkpoints)@),
            final(self).depth().last() == (spec_raw(operator_kind), checkpoint_index(old(checkpoints)@[priority - 1])),
            final(self).last_built() == (false, spec_raw(token_kind)),
            final(is_open)@[priority - 1],
            forall|k: int| priority <= k < 8 ==> !#[trigger] final(is_open)@[k],
    {
        let ghost o0 = is_open@;
        let ghost c0 = checkpoints@;
        let ghost size0 = self.size();
        proof {
            lemma_open_list_ok(is_open@, 8);
        }
        self.close_nodes(priority - 1, is_open, Ghost(checkpoints@), Ghost(d0));
        let ghost o1 = is_open@;
        let ghost size1 = self.size();
        let ghost ol1 = open_list(o1, 8);
        let ghost depth1 = self.depth();
        proof {
            lemma_open_list_ok(o0, priority - 1);
            assert(checkpoint_index(c0[priority - 1]) <= size1) by {
                if size1 != size0 {
                    let j = choose|j: int|
                        priority - 1 <= j < 8 && o0[j] && size1 == checkpoint_index(#[trigger] c0[j]) + 1;
                    assert(checkpoint_index(c0[priority - 1]) <= checkpoint_index(c0[j]));
                }
            }
            if ol1.len() > 0 {
                let last = ol1[ol1.len() - 1];
                assert(ol1 == open_list(o0, priority - 1));
                assert(last < priority - 1);
                lemma_operator_nodes_pop(self.depth(), d0, ol1, c0);
                assert(checkpoint_index(c0[last]) <= checkpoint_index(c0[priority - 1]));
            } else {
                assert(self.depth() =~= d0);
            }
        }
        let c = self.b_checkpoint();
        checkpoints.set(priority, c);
        let target = checkpoints[priority - 1];
        proof {
            assert(target == c0[priority - 1]);
        }
        self.b_start_at(target, operator_kind);
        is_open.set(priority - 1, true);
        let ghost o2 = is_open@;
        proof {
            lemma_open_list_upper(o2, priority as int, 8);
            lemma_open_list_update(o1, priority - 1, true, priority - 1);
            lemma_open_list_upper(o1, priority - 1, 8);
            assert(open_list(o2, priority as int) == open_list(o2, priority - 1).push(priority - 1));
            assert(open_list(o2, 8) == ol1.push(priority - 1));
            lemma_operator_nodes_push(depth1, d0, ol1, c0, spec_raw(operator_kind), priority - 1);
        }
        self.b_token(token_kind, t);
        let c2 = self.b_checkpoint();
        let lo: usize = if priority + 1 < 8 { priority + 1 } else { 8 };
        let mut j: usize = lo;
        let ghost cps_mid = checkpoints@;
        proof {
            assert(forall|k: int| 0 <= k < 10 && k != priority ==> cps_mid[k] == c0[k]);
            assert(cps_mid[priority as int] == c);
        }
        while j < 9
            invariant
                checkpoints@.len() == 10,
                cps_mid.len() == 10,
                lo <= j <= 9,
                forall|k: int| 0 <= k < 10 && !(lo <= k < j) ==> checkpoints@[k] == cps_mid[k],
                forall|k: int| lo <= k < j ==> checkpoints@[k] == c2,
            decreases 9 - j,
        {
            checkpoints.set(j, c2);
            j = j + 1;
        }
        proof {
            let cps = checkpoints@;
            let p = priority as int;
            assert(checkpoint_index(c) == size1);
            assert(checkpoint_index(c2) == size1 + 1);
            assert(self.size() == size1 + 1);
            assert forall|k: int| 0 <= k < 9 implies #[trigger] checkpoint_index(cps[k]) == (if k < p {
                checkpoint_index(c0[k])
            } else if k == p && p < 8 {
                size1
            } else {
                size1 + 1
            }) by {
                if lo <= k < 9 {
                    assert(cps[k] == c2);
                } else {
                    assert(cps[k] == cps_mid[k]);
                    if k != p {
                        assert(cps_mid[k] == c0[k]);
                    }
                }
            }
            let ol2 = open_list(o2, 8);
            lemma_open_list_ok(o2, 8);
            assert forall|t: int| 0 <= t < ol2.len() implies cps[#[trigger] ol2[t]] == c0[ol2[t]] by {
                assert(ol2[t] <= priority - 1);
                assert(cps[ol2[t]] == cps_mid[ol2[t]]);
            }
            lemma_operator_nodes_cps(self.depth(), d0, ol2, c0, cps);
            assert forall|k: int| 0 <= k < 9 implies s0 <= #[trigger] checkpoint_index(cps[k]) <= self.size() by {
                if k < p - 1 {
                    assert(checkpoint_index(c0[k]) <= checkpoint_index(c0[p - 1]));
                }
            }
            assert forall|a: int, b: int| 0 <= a <= b < 9 implies #[trigger] checkpoint_index(cps[a]) <= #[trigger] checkpoint_index(cps[b]) by {
                if a < p && b < p {
                    assert(checkpoint_index(c0[a]) <= checkpoint_index(c0[b]));
                } else if a < p {
                    assert(checkpoint_index(c0[a]) <= checkpoint_index(c0[p - 1]));
                }
            }
        }
    }

    fn scan_expression_list(&mut self)
        requires
            old(self).inv(),
        ensures
            final(self).balanced(old(self)),
            final(self).reads_if_value(old(self)),
        decreases old(self).progress(), rank_list(),
    {
        let ghost entry = self.progress();
        let mut seen_comma = false;
        let mut seen_expression = false;
        loop
            invariant
                self.balanced(old(self)),
                entry == old(self).progress(),
                !seen_expression ==> *self == *old(self) || (old(self).token_cache matches Some(t) && trivia(t.token.kind)),
                seen_expression ==> self.reads_if_value(old(self)),
            ensures
                self.balanced(old(self)),
                self.reads_if_value(old(self)),
            decreases self.progress(), if seen_comma || !seen_expression { 1int } else { 0int },
        {
            self.eat_whitespace();
            if seen_comma || !seen_expression {
                seen_comma = false;
                let scanned = self.scan_expression() != ExpressionKind::Nothing;
                seen_expression = true;
                if !scanned {
                    break;
                }
            } else {
                match self.peek_raw_token() {
                    Some(t) => {
                        match t.token.kind {
                            TokenKind::Comma => {
                                self.next_raw_token();
                                self.b_token(SyntaxKind::Comma, t);
                                seen_comma = true;
                                if !seen_expression {
                                    self.push_error(t.token.start, t.token.end, ErrorKind::UnexpectedOperator);
                                }
                            },
                            _ => { break; },
                        }
                    },
                    None => { break; },
                }
            }
        }
    }

    fn scan_preexp(&mut self, token: Tok) -> (k: ExpressionKind)
        requires
            old(self).inv(),
            tok_ok(token, old(self).text()),
        ensures
            final(self).balanced(old(self)),
            final(self).size() > old(self).size(),
            token.token.kind is LeftBracket ==> (k is Nested || k is Nothing) && final(self).size()
                == old(self).size() + 1 && final(self).last_built() == (true, spec_raw(
                SyntaxKind::GroupedExpression,
            )),
            !(token.token.kind is LeftBracket) ==> k is FunctionCall || k is Name || k is Identifier
                || k is Nothing,
            !(token.token.kind is LeftBracket) && k is FunctionCall ==> final(self).size()
                == old(self).size() + 1 && final(self).last_built() == (true, spec_raw(SyntaxKind::FunctionCall)),
            !(token.token.kind is LeftBracket) && !(k is FunctionCall) ==> final(self).built()[old(self).size() as int]
                == (true, spec_raw(SyntaxKind::Identifier)),
            !(token.token.kind is LeftBracket) && k is Nothing ==> final(self).errors@.len()
                > old(self).errors@.len(),
        decreases old(self).progress(), rank_preexp(),
    {
        if token.token.kind == TokenKind::LeftBracket {
            self.b_start(SyntaxKind::GroupedExpression);
            self.b_token(SyntaxKind::LeftBracket, token);
            self.eat_whitespace();
            let mut res = self.scan_expression() != ExpressionKind::Nothing;
            self.eat_whitespace();
            match self.peek_raw_token() {
                Some(t) => {
                    if t.token.kind == TokenKind::RightBracket {
                        self.next_raw_token();
                        self.b_token(SyntaxKind::RightBracket, t);
                    } else {
                        self.push_error(t.token.start, t.token.end, ErrorKind::ExpectingClosingBracket);
                        res = false;
                    }
                },
                None => {},
            }
            self.b_finish();
            if res {
                return ExpressionKind::Nested;
            } else {
                return ExpressionKind::Nothing;
            }
        }
        let checkpoint = self.b_checkpoint();
        let kind = self.scan_function_identifier(token);
        let ghost mid = *self;
        self.eat_whitespace();
        proof {
            assert(self.built().take(mid.size())[old(self).size()] == self.built()[old(self).size()]);
        }
        if kind == ExpressionKind::FunctionCall {
            self.b_start_at(checkpoint, SyntaxKind::FunctionCall);
            let scanned = self.scan_arguments();
            self.b_finish();
            if !scanned {
                let end = self.get_current_position();
                self.push_error(token.token.start, end, ErrorKind::ExpectingFunctionCall);
            }
            return ExpressionKind::FunctionCall;
        } else if kind != ExpressionKind::Nothing {
            let ghost d0 = self.depth();
            let ghost s0 = old(self).size();
            loop
                invariant
                    self.keeps(old(self)),
                    self.depth() == d0,
                    d0 == old(self).depth(),
                    s0 == old(self).size(),
                    checkpoint_index(checkpoint) == s0,
                    self.size() >= s0 + 1,
                    self.built()[s0] == (true, spec_raw(SyntaxKind::Identifier)),
                    d0.len() > 0 ==> d0.last().1 <= s0,
                    tok_ok(token, self.text()),
                    !(token.token.kind is LeftBracket),
                decreases self.progress(),
            {
                let t = match self.peek_raw_token() {
                    Some(t) => t,
                    None => { break; },
                };
                match t.token.kind {
                    TokenKind::LeftBracket | TokenKind::String { .. }
                    | TokenKind::LeftCurlyBracket => {
                        self.b_start_at(checkpoint, SyntaxKind::FunctionCall);
                        let scanned = self.scan_arguments();
                        self.b_finish();
                        if !scanned {
                            self.push_error(token.token.start, t.token.end, ErrorKind::ExpectingFunctionCall);
                        }
                        return ExpressionKind::FunctionCall;
                    },
                    TokenKind::LeftSquareBracket => {
                        self.b_start_at(checkpoint, SyntaxKind::Identifier);
                        self.next_raw_token();
                        self.scan_indexing_variable(t);
                        self.b_finish();
                    },
                    _ => { break; },
                }
            }
            return kind;
        } else {
            self.push_error(token.token.start, token.token.end, ErrorKind::ExpectingName);
            return ExpressionKind::Nothing;
        }
    }

    fn scan_indexing_variable(&mut self, token: Tok)
        requires
            old(self).inv(),
            tok_ok(token, old(self).text()),
        ensures
            final(self).balanced(old(self)),
            final(self).size() >= old(self).size() + 2,
            final(self).built()[old(self).size() + 1] == (true, spec_raw(SyntaxKind::Expression)),
        decreases old(self).progress(), rank_list(),
    {
        self.b_token(SyntaxKind::LeftSquareBracket, token);
        self.b_start(SyntaxKind::Expression);
        self.eat_whitespace();
        let expression_kind = self.scan_expression();
        self.b_finish();
        let ghost k = old(self).size() + 1;
        if expression_kind != ExpressionKind::Nothing {
            let ghost mid = *self;
            self.eat_whitespace();
            proof {
                assert(self.built().take(mid.size())[k] == self.built()[k]);
            }
            match self.peek_raw_token() {
                Some(t) => {
                    if t.token.kind == TokenKind::RightSquareBracket {
                        let ghost b1 = self.built();
                        self.b_token(SyntaxKind::RightSquareBracket, t);
                        assert(self.built()[k] == b1[k]);
                        self.next_raw_token();
                    }
                },
                None => {},
            }
        }
    }

    fn scan_arguments(&mut self) -> (r: bool)
        requires
            old(self).inv(),
        ensures
            final(self).balanced(old(self)),
            final(self).reads_if_value(old(self)),
            (old(self).token_cache matches Some(t) && t.token.kind is LeftBracket) ==> final(self).progress() < old(self).progress(),
        decreases old(self).progress(), rank_arguments(),
    {
        match self.peek_raw_token() {
            Some(t) => {
                match t.token.kind {
                    TokenKind::LeftBracket | TokenKind::Number { .. } | TokenKind::String { .. }
                    | TokenKind::LeftCurlyBracket => {},
                    _ => { return false; },
                }
                let expecting_closing_bracket = t.token.kind == TokenKind::LeftBracket;
                if expecting_closing_bracket {
                    self.next_raw_token();
                }
                self.b_start(SyntaxKind::ArgumentList);
                self.b_token(SyntaxKind::LeftBracket, t);
                self.scan_expression_list();
                self.eat_whitespace();
                let mut is_closed = false;
                match self.peek_raw_token() {
                    Some(t2) => {
                        if t2.token.kind == TokenKind::RightBracket && expecting_closing_bracket {
                            is_closed = true;
                            self.next_raw_token();
                            self.b_token(SyntaxKind::RightBracket, t2);
                        }
                    },
                    None => {},
                }
                if !is_closed && expecting_closing_bracket {
                    self.push_error(t.token.start, t.token.end, ErrorKind::ExpectingClosingBracket);
                }
                self.b_finish();
            },
            None => {},
        }
        true
    }

    fn scan_parameters(&mut self) -> (r: bool)
        requires
            old(self).inv(),
        ensures
            final(self).balanced(old(self)),
            exists|j: int|
                old(self).size() <= j < final(self).size() && #[trigger] final(self).built()[j] == (true, spec_raw(
                    SyntaxKind::ParameterList,
                )) && final(self).trivia_from(j + 1),
            r ==> final(self).progress() < old(self).progress(),
    {
        self.eat_whitespace();
        let ghost s1 = self.size();
        self.b_start(SyntaxKind::ParameterList);
        let ghost d1 = self.depth();
        let mut result = false;
        match self.peek_raw_token() {
            Some(token) => {
                if token.token.kind == TokenKind::LeftBracket {
                    self.b_token(SyntaxKind::LeftBracket, token);
                    self.next_raw_token();
                    let mut expecting_closure = false;
                    let mut expecting_terminator = false;
                    let mut seen_parameter = false;
                    self.eat_whitespace();
                    let mut comma_point = self.get_current_position();
                    let ghost mut comma_pos = self.read_pos();
                    loop
                        invariant
                            self.keeps(old(self)),
                            self.depth() == d1,
                            d1.len() > 0,
                            self.size() >= old(self).size(),
                            0 <= comma_pos <= self.read_pos() <= self.text().len(),
                            comma_point <= byte_offset(self.text(), comma_pos),
                            self.progress() < old(self).progress(),
                        decreases self.progress(),
                    {
                        let token = match self.peek_raw_token() {
                            Some(t) => t,
                            None => { break; },
                        };
                        proof {
                            lemma_byte_offset_mono(self.text(), comma_pos, token.first as int);
                        }
                        match token.token.kind {
                            TokenKind::Identifier => {
                                if expecting_terminator {
                                    self.push_error(comma_point, comma_point.wrapping_add(1), ErrorKind::ExpectingClosingBracket);
                                    break;
                                }
                                if expecting_closure && seen_parameter {
                                    self.push_error(comma_point, comma_point.wrapping_add(1), ErrorKind::ExpectingCommaOrBracket);
                                    break;
                                }
                                comma_point = token.token.end;
                                seen_parameter = true;
                                let keyword_type = self.keyword(token);
                                if keyword_type != SyntaxKind::Name {
                                    self.push_error(token.token.start, token.token.end, ErrorKind::UnexpectedKeyword);
                                    self.b_token(keyword_type, token);
                                } else {
                                    self.b_token(SyntaxKind::Parameter, token);
                                }
                                expecting_closure = true;
                                self.next_raw_token();
                                proof {
                                    lemma_identifier_end(self.text(), token.first as int);
                                    comma_pos = token.last as int;
                                }
                            },
                            TokenKind::Comma => {
                                if expecting_terminator {
                                    self.push_error(token.token.start, token.token.end, ErrorKind::ExpectingClosingBracket);
                                }
                                if !expecting_closure {
                                    self.push_error(token.token.start, token.token.end, ErrorKind::UnexpectedOperator);
                                }
                                expecting_closure = false;
                                self.b_token(SyntaxKind::Comma, token);
                                self.next_raw_token();
                            },
                            TokenKind::RightBracket => {
                                if !expecting_closure && !expecting_terminator && seen_parameter {
                                    self.push_error(token.token.start, token.token.end, ErrorKind::ExpectingName);
                                }
                                self.b_token(SyntaxKind::RightBracket, token);
                                self.next_raw_token();
                                result = true;
                                break;
                            },
                            TokenKind::TripleDot => {
                                if expecting_closure && seen_parameter {
                                    self.push_error(token.token.start, token.token.end, ErrorKind::UnexpectedOperator);
                                }
                                self.b_token(SyntaxKind::ParameterVarArgs, token);
                                expecting_terminator = true;
                                self.next_raw_token();
                            },
                            _ => {
                                self.push_error(token.token.start, token.token.end, ErrorKind::UnexpectedOperator);
                                break;
                            },
                        }
                        self.eat_whitespace();
                        proof {
                            lemma_byte_offset_mono(self.text(), comma_pos, self.read_pos());
                        }
                    }
                }
            },
            None => {},
        }
        self.b_finish();
        let ghost mid = *self;
        self.eat_whitespace();
        proof {
            assert(mid.size() == s1 + 1);
            assert(self.built().take(mid.size())[s1] == self.built()[s1]);
        }
        result
    }

    #[verifier::rlimit(100)]
    #[verifier::spinoff_prover]
    fn scan_name_list(&mut self, text: &Vec<char>)
        requires
            old(self).inv(),
        ensures
            final(self).balanced(old(self)),
            final(self).size() == old(self).size() + 1,
            final(self).last_built() == (true, spec_raw(SyntaxKind::NameList)),
            final(self).token_cache is Some || final(self).progress() == 0,
            final(self).token_cache matches Some(t) ==> !trivia(t.token.kind) && !(t.token.kind is Comma),
            ({
                let s = old(self).text();
                let rp0 = old(self).read_pos();
                let r = name_list_rest(s, trivia_end(s, rp0), true);
                let children = seq![(spec_raw(SyntaxKind::Name), text@)] + trivia_tokens(s, rp0) + r.0;
                &&& final(self).trees().len() == old(self).trees().len() + 1
                &&& final(self).trees().take(old(self).trees().len() as int) == old(self).trees()
                &&& final(self).trees().last() is Node
                &&& final(self).trees().last()->Node_0 == spec_raw(SyntaxKind::NameList)
                &&& kept_tokens(final(self).trees().last()->Node_1, children)
                &&& final(self).errors@ == old(self).errors@ + trivia_errors(s, rp0) + r.1
                &&& final(self).read_pos() == r.2
            }),
    {
        let ghost s = old(self).text();
        let ghost rp0 = old(self).read_pos();
        let ghost s0 = old(self).trees().len() as int;
        let ghost r = name_list_rest(s, trivia_end(s, rp0), true);
        let ghost children = seq![(spec_raw(SyntaxKind::Name), text@)] + trivia_tokens(s, rp0) + r.0;
        let ghost target_errors = old(self).errors@ + trivia_errors(s, rp0) + r.1;
        reveal(Generator::read_trivia);
        self.b_start(SyntaxKind::NameList);
        let ghost d1 = self.depth();
        let mut expecting_closure = true;
        self.b_token_chars(SyntaxKind::Name, text);
        let ghost g1 = *self;
        self.eat_whitespace();
        let ghost mut done: Seq<(u16, Seq<char>)> = seq![(spec_raw(SyntaxKind::Name), text@)] + trivia_tokens(s, rp0);
        proof {
            lemma_trivia_end_bounds(s, rp0);
            let cs = self.trees().skip(s0);
            assert(g1.trees().skip(s0) =~= seq![g1.trees().last()]);
            assert forall|i: int| 0 <= i < cs.len() implies kept_token(#[trigger] cs[i], done[i].0, done[i].1) by {
                if i == 0 {
                    assert(cs[0] == self.trees()[s0]);
                    assert(self.trees().take(g1.trees().len() as int)[s0] == g1.trees()[s0]);
                } else {
                    assert(cs[i] == self.trees()[g1.trees().len() + (i - 1)]);
                }
            }
            assert(children =~= done + r.0);
        }
        loop
            invariant
                self.keeps(old(self)),
                self.depth() == d1,
                d1.len() > 0,
                d1 == old(self).depth().push((spec_raw(SyntaxKind::NameList), old(self).size())),
                self.size() >= old(self).size(),
                self.token_cache is Some || self.progress() == 0,
                self.token_cache matches Some(t) ==> !trivia(t.token.kind),
                s == self.text(),
                s0 == old(self).trees().len(),
                self.trees().len() >= s0,
                self.trees().take(s0) == old(self).trees(),
                kept_tokens(self.trees().skip(s0), done),
                children == done + name_list_rest(s, self.read_pos(), expecting_closure).0,
                target_errors == self.errors@ + name_list_rest(s, self.read_pos(), expecting_closure).1,
                r.2 == name_list_rest(s, self.read_pos(), expecting_closure).2,
                0 <= self.read_pos() <= s.len(),
            ensures
                self.keeps(old(self)),
                self.depth() == d1,
                self.size() >= old(self).size(),
                self.token_cache is Some || self.progress() == 0,
                self.token_cache matches Some(t) ==> !trivia(t.token.kind) && !(t.token.kind is Comma),
                self.trees().len() >= s0,
                self.trees().take(s0) == old(self).trees(),
                kept_tokens(self.trees().skip(s0), children),
                target_errors == self.errors@,
                r.2 == self.read_pos(),
            decreases self.progress(),
        {
            proof {
                reveal(Generator::read_trivia);
            }
            let ghost rp = self.read_pos();
            let ghost exp = expecting_closure;
            let token = match self.peek_raw_token() {
                Some(t) => t,
                None => {
                    proof {
                        assert(name_list_rest(s, rp, exp).0 =~= Seq::<(u16, Seq<char>)>::empty());
                        assert(children =~= done);
                        assert(target_errors =~= self.errors@);
                    }
                    break;
                },
            };
            let ghost n = next_index(s, rp);
            let ghost e = spec_scan(s, rp).1;
            let ghost q = trivia_end(s, n);
            let ghost g0 = *self;
            proof {
                assert(token.first == rp);
                lemma_trivia_end_bounds(s, n);
            }
            match token.token.kind {
                TokenKind::Identifier => {
                    if expecting_closure {
                        proof {
                            assert(name_list_rest(s, rp, exp).0 =~= Seq::<(u16, Seq<char>)>::empty());
                            assert(children =~= done);
                            assert(target_errors =~= self.errors@);
                        }
                        break;
                    }
                    let keyword_type = self.keyword(token);
                    if keyword_type != SyntaxKind::Name {
                        self.push_error(token.token.start, token.token.end, ErrorKind::UnexpectedKeyword);
                        self.b_token(keyword_type, token);
                    } else {
                        self.b_token(SyntaxKind::Name, token);
                    }
                    expecting_closure = true;
                    self.next_raw_token();
                },
                TokenKind::Comma => {
                    if !expecting_closure {
                        self.push_error(token.token.start, token.token.end, ErrorKind::UnexpectedOperator);
                    }
                    expecting_closure = false;
                    self.b_token(SyntaxKind::Comma, token);
                    self.next_raw_token();
                },
                _ => {
                    proof {
                        assert(name_list_rest(s, rp, exp).0 =~= Seq::<(u16, Seq<char>)>::empty());
                        assert(children =~= done);
                        assert(target_errors =~= self.errors@);
                    }
                    break;
                },
            }
            let ghost g1 = *self;
            self.eat_whitespace();
            proof {
                let rest = name_list_rest(s, rp, exp);
                let later = name_list_rest(s, q, expecting_closure);
                let tok = rest.0[0];
                let triv = trivia_tokens(s, n);
                assert(rest.0 == seq![tok] + triv + later.0);
                assert(rest.2 == later.2);
                assert(g1.read_pos() == n);
                assert(g1.errors@ + trivia_errors(s, n) + later.1 =~= g0.errors@ + rest.1);
                let done2 = done + seq![tok] + triv;
                assert(children =~= done2 + later.0);
                let cs = self.trees().skip(s0);
                let k = done.len();
                assert(g1.trees().len() == g0.trees().len() + 1);
                assert(g0.trees().skip(s0).len() == k);
                assert(kept_token(g1.trees().last(), tok.0, tok.1));
                assert forall|i: int| 0 <= i < cs.len() implies kept_token(#[trigger] cs[i], done2[i].0, done2[i].1) by {
                    assert(cs[i] == self.trees()[s0 + i]);
                    if i < k {
                        assert(self.trees().take(g1.trees().len() as int)[s0 + i] == g1.trees()[s0 + i]);
                        assert(g1.trees()[s0 + i] == g0.trees()[s0 + i]);
                        assert(g0.trees().skip(s0)[i] == g0.trees()[s0 + i]);
                    } else if i == k {
                        assert(self.trees().take(g1.trees().len() as int)[s0 + i] == g1.trees()[s0 + i]);
                    } else {
                        assert(self.trees()[g1.trees().len() + (i - k - 1)] == cs[i]);
                    }
                }
                assert(self.trees().take(s0) =~= self.trees().take(g1.trees().len() as int).take(s0));
                done = done2;
            }
        }
        self.b_finish();
        proof {
            assert(self.trees().take(s0) =~= old(self).trees());
        }
    }

    #[verifier::rlimit(40)]
    fn scan_statement(&mut self, token: Tok)
        requires
            old(self).inv(),
            tok_ok(token, old(self).text()),
        ensures
            final(self).balanced(old(self)),
            final(self).size() > old(self).size(),
            ({
                let kw = spec_keyword(old(self).text().subrange(token.first as int, token.last as int));
                &&& kw is DoKeyword ==> final(self).adds_one_node(old(self), SyntaxKind::DoBlock)
                &&& kw is BreakKeyword ==> final(self).built() == old(self).built().push(
                    (false, spec_raw(SyntaxKind::BreakKeyword)),
                ) && final(self).trees() == old(self).trees().push(
                    GreenTree::Token(
                        spec_raw(SyntaxKind::BreakKeyword),
                        old(self).kept_text(old(self).text().subrange(token.first as int, token.last as int)),
                    ),
                )
                &&& kw is FunctionKeyword ==> final(self).adds_one_node(old(self), SyntaxKind::FunctionDefinition)
                &&& kw is IfKeyword ==> final(self).adds_one_node(old(self), SyntaxKind::IfChain)
                &&& kw is WhileKeyword ==> final(self).adds_one_node(old(self), SyntaxKind::WhileLoop)
                &&& kw is RepeatKeyword ==> final(self).adds_one_node(old(self), SyntaxKind::RepeatUntilLoop)
                &&& (kw is DoKeyword || kw is RepeatKeyword) ==> final(self).progress() < old(self).progress()
                    || final(self).errors@.len() > old(self).errors@.len()
                &&& kw is ForKeyword ==> final(self).for_outcome(old(self))
                &&& kw is LocalKeyword ==> final(self).local_outcome(old(self))
                &&& kw is ReturnKeyword ==> final(self).adds_one_node(old(self), SyntaxKind::ReturnStatement)
                &&& !(kw is DoKeyword || kw is BreakKeyword || kw is FunctionKeyword || kw is IfKeyword
                    || kw is WhileKeyword || kw is RepeatKeyword || kw is ForKeyword || kw is LocalKeyword
                    || kw is ReturnKeyword || kw is Name) ==> final(self).built() == old(self).built().push(
                    (false, spec_raw(SyntaxKind::Invalid)),
                ) && final(self).trees() == old(self).trees().push(
                    GreenTree::Token(
                        spec_raw(SyntaxKind::Invalid),
                        old(self).kept_text(old(self).text().subrange(token.first as int, token.last as int)),
                    ),
                ) && final(self).errors@ == old(self).errors@.push(
                    Error { start: token.token.start, end: token.token.end, kind: ErrorKind::UnexpectedKeyword },
                )
            }),
        decreases old(self).progress(), rank_statement(),
    {
        let kw = self.keyword(token);
        match kw {
            SyntaxKind::DoKeyword => {
                self.b_start(SyntaxKind::DoBlock);
                self.b_token(SyntaxKind::DoKeyword, token);
                self.scan_block(Some(SyntaxKind::EndKeyword), token);
                self.b_finish();
            },
            SyntaxKind::BreakKeyword => {
                self.b_token(SyntaxKind::BreakKeyword, token);
            },
            SyntaxKind::FunctionKeyword => {
                let keyword_token = token;
                self.b_start(SyntaxKind::FunctionDefinition);
                self.b_token(SyntaxKind::FunctionKeyword, token);
                self.eat_whitespace();
                match self.peek_raw_token() {
                    Some(token) => {
                        match token.token.kind {
                            TokenKind::Identifier => {
                                self.next_raw_token();
                                self.scan_function_identifier(token);
                                if self.scan_parameters() {
                                    self.scan_block(Some(SyntaxKind::EndKeyword), keyword_token);
                                }
                            },
                            TokenKind::LeftBracket => {
                                if self.scan_parameters() {
                                    self.scan_block(Some(SyntaxKind::EndKeyword), keyword_token);
                                }
                            },
                            _ => {
                                self.push_error(keyword_token.token.start, token.token.end, ErrorKind::InvalidFunction);
                            },
                        }
                    },
                    None => {},
                }
                self.b_finish();
            },
            SyntaxKind::IfKeyword => {
                self.scan_if_block(token);
            },
            SyntaxKind::WhileKeyword => {
                self.b_start(SyntaxKind::WhileLoop);
                self.b_token(SyntaxKind::WhileKeyword, token);
                self.eat_whitespace();
                self.b_start(SyntaxKind::Condition);
                let is_expression = self.scan_expression() != ExpressionKind::Nothing;
                self.b_finish();
                if is_expression {
                    self.eat_whitespace();
                    match self.peek_raw_token() {
                        Some(t) => {
                            if t.token.kind == TokenKind::Identifier {
                                if self.keyword(t) == SyntaxKind::DoKeyword {
                                    self.next_raw_token();
                                    self.b_token(SyntaxKind::DoKeyword, t);
                                    self.scan_block(Some(SyntaxKind::EndKeyword), token);
                                }
                            }
                        },
                        None => {},
                    }
                }
                self.b_finish();
            },
            SyntaxKind::RepeatKeyword => {
                self.b_start(SyntaxKind::RepeatUntilLoop);
                self.b_token(SyntaxKind::RepeatKeyword, token);
                self.eat_whitespace();
                self.scan_block(Some(SyntaxKind::UntilKeyword), token);
                self.eat_whitespace();
                if self.scan_expression() == ExpressionKind::Nothing {
                    let end = self.get_current_position();
                    self.push_error(token.token.start, end, ErrorKind::ExpectingExpression);
                }
                self.b_finish();
            },
            SyntaxKind::ForKeyword => {
                self.scan_for(token);
            },
            SyntaxKind::LocalKeyword => {
                self.scan_local(token);
            },
            SyntaxKind::ReturnKeyword => {
                self.b_start(SyntaxKind::ReturnStatement);
                self.b_token(SyntaxKind::ReturnKeyword, token);
                self.eat_whitespace();
                match self.peek_raw_token() {
                    Some(t) => {
                        if t.token.kind != TokenKind::Identifier || self.keyword(t)
                            != SyntaxKind::EndKeyword {
                            self.scan_expression_list();
                        }
                    },
                    None => {},
                }
                self.b_finish();
            },
            SyntaxKind::Name => {
                self.scan_preexp_statement(token);
            },
            _ => {
                self.b_token(SyntaxKind::Invalid, token);
                self.push_error(token.token.start, token.token.end, ErrorKind::UnexpectedKeyword);
            },
        }
    }

    /// The `for` statement of `scan_statement`.
    fn scan_for(&mut self, token: Tok)
        requires
            old(self).inv(),
            tok_ok(token, old(self).text()),
        ensures
            final(self).balanced(old(self)),
            final(self).for_outcome(old(self)),
        decreases old(self).progress(), rank_preexp_statement(),
    {
        let ghost s0 = self.size();
        let checkpoint = self.b_checkpoint();
        self.b_token(SyntaxKind::ForKeyword, token);
        let ghost g1 = *self;
        self.eat_whitespace();
        proof {
            assert(self.built().take(g1.size()) == g1.built());
            assert(self.built()[s0] == self.built().take(g1.size())[s0]);
        }
        match self.peek_raw_token() {
            Some(start_token) => {
                let text = self.chars_of(start_token);
                if start_token.token.kind != TokenKind::Identifier {
                    self.push_error(start_token.token.start, start_token.token.end, ErrorKind::ExpectingName);
                } else if keyword_of(&text) != SyntaxKind::Name {
                    self.push_error(start_token.token.start, start_token.token.end, ErrorKind::UnexpectedKeyword);
                } else {
                    self.next_raw_token();
                    let ghost g2 = *self;
                    self.eat_whitespace();
                    proof {
                        assert(self.built().take(g2.size()) == g2.built());
                        assert(self.built()[s0] == self.built().take(g2.size())[s0]);
                    }
                    match self.peek_raw_token() {
                        Some(t) => {
                            if t.token.kind == TokenKind::Assign {
                                self.b_start_at(checkpoint, SyntaxKind::ForCountLoop);
                                self.b_token_chars(SyntaxKind::Name, &text);
                                self.b_token(SyntaxKind::Assign, t);
                                self.next_raw_token();
                                self.eat_whitespace();
                                self.b_start(SyntaxKind::ExpressionList);
                                self.scan_expression_list();
                                self.b_finish();
                            } else {
                                self.b_start_at(checkpoint, SyntaxKind::ForInLoop);
                                self.scan_name_list(&text);
                                self.eat_whitespace();
                                match self.peek_raw_token() {
                                    Some(t) => {
                                        if t.token.kind != TokenKind::Identifier || self.keyword(t)
                                            != SyntaxKind::InKeyword {
                                            self.push_error(start_token.token.start, start_token.token.end, ErrorKind::ExpectingToken);
                                        } else {
                                            self.b_token(SyntaxKind::InKeyword, t);
                                            self.next_raw_token();
                                            self.b_start(SyntaxKind::ExpressionList);
                                            self.scan_expression_list();
                                            self.b_finish();
                                        }
                                    },
                                    None => {},
                                }
                            }
                            self.eat_whitespace();
                            match self.peek_raw_token() {
                                Some(t) => {
                                    if t.token.kind != TokenKind::Identifier || self.keyword(t)
                                        != SyntaxKind::DoKeyword {
                                        self.push_error(start_token.token.start, start_token.token.end, ErrorKind::ExpectingDo);
                                    } else {
                                        self.next_raw_token();
                                        self.b_token(SyntaxKind::DoKeyword, t);
                                        self.eat_whitespace();
                                        self.scan_block(Some(SyntaxKind::EndKeyword), token);
                                    }
                                },
                                None => {},
                            }
                            self.b_finish();
                        },
                        None => {},
                    }
                }
            },
            None => {},
        }
    }

    /// The `local` statement of `scan_statement`.
    fn scan_local(&mut self, token: Tok)
        requires
            old(self).inv(),
            tok_ok(token, old(self).text()),
        ensures
            final(self).balanced(old(self)),
            final(self).local_outcome(old(self)),
        decreases old(self).progress(), rank_preexp_statement(),
    {
        let ghost s0 = self.size();
        let checkpoint = self.b_checkpoint();
        let keyword_token = token;
        self.b_token(SyntaxKind::LocalKeyword, token);
        let ghost g1 = *self;
        self.eat_whitespace();
        proof {
            assert(self.built().take(g1.size()) == g1.built());
            assert(self.built()[s0] == self.built().take(g1.size())[s0]);
        }
        match self.next_raw_token() {
            Some(t) => {
                if t.token.kind != TokenKind::Identifier {
                    self.push_error(token.token.start, t.token.end, ErrorKind::UnexpectedOperator);
                    return;
                } else {
                    let text = self.chars_of(t);
                    let keyword = keyword_of(&text);
                    if keyword == SyntaxKind::FunctionKeyword {
                        self.b_start_at(checkpoint, SyntaxKind::FunctionDefinition);
                        self.b_token(SyntaxKind::FunctionKeyword, t);
                        self.eat_whitespace();
                        match self.peek_raw_token() {
                            Some(t) => {
                                if t.token.kind == TokenKind::Identifier {
                                    self.next_raw_token();
                                    let keyword = self.keyword(t);
                                    if keyword != SyntaxKind::Name {
                                        self.b_token(keyword, t);
                                    } else {
                                        self.b_token(SyntaxKind::Name, t);
                                    }
                                    if self.scan_parameters() {
                                        self.scan_block(Some(SyntaxKind::EndKeyword), keyword_token);
                                    }
                                }
                            },
                            None => {},
                        }
                        self.b_finish();
                    } else if keyword != SyntaxKind::Name {
                        self.b_token(keyword, t);
                        self.push_error(token.token.start, t.token.end, ErrorKind::UnexpectedKeyword);
                    } else {
                        self.scan_name_list(&text);
                        let ghost g2 = *self;
                        self.eat_whitespace();
                        proof {
                            let j = g2.size() - 1;
                            assert(self.built().take(g2.size()) == g2.built());
                            assert(self.built()[j] == self.built().take(g2.size())[j]);
                            assert(g2.built()[j] == g2.last_built());
                        }
                        match self.peek_raw_token() {
                            Some(t) => {
                                if t.token.kind == TokenKind::Assign {
                                    self.b_start_at(checkpoint, SyntaxKind::LocalAssignStatement);
                                    self.b_token(SyntaxKind::Assign, t);
                                    self.next_raw_token();
                                    self.b_start(SyntaxKind::ExpressionList);
                                    self.scan_expression_list();
                                    self.b_finish();
                                    self.b_finish();
                                }
                            },
                            None => {},
                        }
                    }
                }
            },
            None => {},
        }
    }

    #[verifier::rlimit(60)]
    fn scan_preexp_statement(&mut self, token: Tok)
        requires
            old(self).inv(),
            tok_ok(token, old(self).text()),
        ensures
            final(self).balanced(old(self)),
            final(self).size() > old(self).size(),
        decreases old(self).progress(), rank_preexp_statement(),
    {
        let origin = self.b_checkpoint();
        let mut checkpoint = self.b_checkpoint();
        let mut kind = self.scan_preexp(token);
        let mut needs_indexing = false;
        if kind == ExpressionKind::Nested {
            needs_indexing = true;
        }
        let mut started_group = false;
        let mut expecting_name = false;
        let mut start = token.token.start;
        let ghost d0 = old(self).depth();
        let ghost s0 = old(self).size();
        loop
            invariant
                self.keeps(old(self)),
                d0 == old(self).depth(),
                s0 == old(self).size(),
                checkpoint_index(origin) == s0,
                s0 <= checkpoint_index(checkpoint) <= self.size(),
                started_group ==> self.depth() == d0.push((spec_raw(SyntaxKind::Identifier), checkpoint_index(checkpoint))),
                !started_group ==> self.depth() == d0,
                d0.len() > 0 ==> d0.last().1 <= s0,
                start <= byte_length(self.text()),
                self.size() > s0,
            decreases self.progress(),
        {
            if kind == ExpressionKind::Nothing {
                break;
            }
            self.eat_whitespace();
            let t = match self.peek_raw_token() {
                Some(t) => t,
                None => { break; },
            };
            match t.token.kind {
                TokenKind::Identifier => { break; },
                TokenKind::Dot => {
                    self.next_raw_token();
                    if !started_group {
                        self.b_start_at(checkpoint, SyntaxKind::Identifier);
                        started_group = true;
                    }
                    self.b_token(SyntaxKind::Dot, t);
                    match self.peek_raw_token() {
                        Some(t) => {
                            kind = self.scan_preexp(t);
                        },
                        None => { break; },
                    }
                },
                TokenKind::Colon => {
                    self.next_raw_token();
                    if !started_group {
                        self.b_start_at(checkpoint, SyntaxKind::Identifier);
                        started_group = true;
                    }
                    self.b_token(SyntaxKind::Colon, t);
                    self.eat_whitespace();
                    match self.peek_raw_token() {
                        Some(t) => {
                            if t.token.kind != TokenKind::Identifier {
                                self.push_error(start, t.token.end, ErrorKind::ExpectingFunctionCall);
                                break;
                            } else if self.keyword(t) != SyntaxKind::Name {
                                self.push_error(start, t.token.end, ErrorKind::ExpectingFunctionCall);
                            }
                            self.b_token(SyntaxKind::Name, t);
                            self.next_raw_token();
                            if !self.scan_arguments() {
                                self.push_error(start, t.token.end, ErrorKind::ExpectingFunctionCall);
                                break;
                            }
                        },
                        None => {},
                    }
                },
                TokenKind::Comma => {
                    if started_group {
                        self.b_finish();
                        started_group = false;
                    }
                    start = t.token.start;
                    self.next_raw_token();
                    self.b_token(SyntaxKind::Comma, t);
                    self.eat_whitespace();
                    if kind != ExpressionKind::Name && kind != ExpressionKind::Identifier {
                        self.push_error(start, t.token.end, ErrorKind::ExpectingName);
                        break;
                    }
                    expecting_name = true;
                    match self.peek_raw_token() {
                        Some(t2) => {
                            checkpoint = self.b_checkpoint();
                            kind = self.scan_preexp(t2);
                        },
                        None => {
                            self.push_error(start, t.token.end, ErrorKind::ExpectingName);
                            break;
                        },
                    }
                },
                TokenKind::LeftSquareBracket => {
                    self.b_start_at(checkpoint, SyntaxKind::Identifier);
                    self.next_raw_token();
                    self.scan_indexing_variable(t);
                    self.b_finish();
                    kind = ExpressionKind::Identifier;
                },
                TokenKind::LeftBracket | TokenKind::String { .. } | TokenKind::LeftCurlyBracket => {
                    self.b_start_at(checkpoint, SyntaxKind::FunctionCall);
                    let scanned = self.scan_arguments();
                    self.b_finish();
                    if !scanned {
                        self.push_error(start, t.token.end, ErrorKind::ExpectingFunctionCall);
                        break;
                    }
                },
                _ => { break; },
            }
            needs_indexing = false;
        }
        if started_group {
            self.b_finish();
        }
        if expecting_name && kind != ExpressionKind::Name || needs_indexing {
            let end = self.get_current_position();
            self.push_error(start, end, ErrorKind::ExpectingName);
        }
        if kind == ExpressionKind::Name || kind == ExpressionKind::Identifier {
            self.b_start_at(checkpoint, SyntaxKind::VariableList);
            self.b_finish();
            self.eat_whitespace();
            match self.peek_raw_token() {
                Some(t) => {
                    if t.token.kind == TokenKind::Assign {
                        self.b_start_at(origin, SyntaxKind::AssignStatement);
                        self.b_token(SyntaxKind::Assign, t);
                        self.next_raw_token();
                        self.b_start(SyntaxKind::ExpressionList);
                        self.scan_expression_list();
                        self.b_finish();
                        self.b_finish();
                    }
                },
                None => {},
            }
        }
    }

    /// Reads statements into one `Block` node up to the terminator keyword,
    /// whose token follows the node, or to the end of the text when there is
    /// no terminator. When the text ends before the terminator, the last error
    /// recorded is a not-closed-block error over the token that opened it.
    fn scan_block(&mut self, terminator: Option<SyntaxKind>, start_token: Tok)
        requires
            old(self).inv(),
            tok_ok(start_token, old(self).text()),
        ensures
            final(self).keeps(old(self)),
            final(self).depth() == old(self).depth(),
            final(self).size() == old(self).size() + 1 || (terminator is Some && final(self).size()
                == old(self).size() + 2),
            terminator is None ==> final(self).size() == old(self).size() + 1 && built_elements(final(self).builder).last() == (true, spec_raw(SyntaxKind::Block)) && final(self).progress() == 0,
            final(self).progress() < old(self).progress() || (terminator is Some
                && final(self).errors@.len() > old(self).errors@.len()) || (terminator is None
                && old(self).progress() == 0),
            terminator is Some && final(self).size() == old(self).size() + 1 ==> final(self).errors@.len()
                > 0 && final(self).errors@.last() == (Error {
                start: start_token.token.start,
                end: start_token.token.end,
                kind: ErrorKind::NotClosedBlock,
            }),
            old(self).token_cache is Some && stray_token(old(self).token_cache->0.token.kind)
                ==> final(self).errors@.len() > old(self).errors@.len() && final(self).errors@[old(
                self,
            ).errors@.len() as int] == (Error {
                start: old(self).token_cache->0.token.start,
                end: old(self).token_cache->0.token.end,
                kind: ErrorKind::UnexpectedToken,
            }),
        decreases old(self).progress(), rank_block(),
    {
        let ghost stray = old(self).token_cache is Some && stray_token(old(self).token_cache->0.token.kind);
        let ghost t0 = old(self).token_cache;
        let ghost e0 = old(self).errors@.len() as int;
        self.b_start(SyntaxKind::Block);
        let ghost d1 = self.depth();
        self.eat_whitespace();
        let mut t = match self.next_raw_token() {
            Some(token) => token,
            None => {
                self.b_finish();
                if terminator.is_some() {
                    self.push_error(start_token.token.start, start_token.token.end, ErrorKind::NotClosedBlock);
                }
                return;
            },
        };
        let mut terminated = false;
        loop
            invariant
                self.keeps(old(self)),
                self.depth() == d1,
                d1 == old(self).depth().push((spec_raw(SyntaxKind::Block), old(self).size())),
                self.size() >= old(self).size(),
                tok_ok(t, self.text()),
                tok_ok(start_token, self.text()),
                self.progress() < old(self).progress(),
                terminated ==> terminator is Some,
                stray == (t0 is Some && stray_token(t0->0.token.kind)),
                e0 == old(self).errors@.len(),
                stray ==> (t0 == Some(t) && self.errors@.len() == e0) || (self.errors@.len() > e0
                    && self.errors@[e0] == (Error { start: t0->0.token.start, end: t0->0.token.end, kind: ErrorKind::UnexpectedToken })),
            ensures
                self.keeps(old(self)),
                self.depth() == d1,
                self.size() >= old(self).size(),
                tok_ok(t, self.text()),
                terminated ==> terminator is Some,
                !terminated && terminator is None ==> self.progress() == 0,
                !terminated && terminator is Some ==> self.errors@.len() > 0 && self.errors@.last() == (Error {
                    start: start_token.token.start,
                    end: start_token.token.end,
                    kind: ErrorKind::NotClosedBlock,
                }),
                stray ==> self.errors@.len() > e0
                    && self.errors@[e0] == (Error { start: t0->0.token.start, end: t0->0.token.end, kind: ErrorKind::UnexpectedToken }),
            decreases self.progress(),
        {
            match t.token.kind {
                TokenKind::Identifier | TokenKind::LeftBracket => {
                    let keyword = self.keyword(t);
                    if terminator == Some(keyword) {
                        terminated = true;
                        break;
                    }
                    self.scan_statement(t);
                },
                TokenKind::Semicolon => {
                    self.b_token(SyntaxKind::Semicolon, t);
                },
                _ => {
                    self.b_token(SyntaxKind::Invalid, t);
                    self.push_error(t.token.start, t.token.end, ErrorKind::UnexpectedToken);
                },
            }
            self.eat_whitespace();
            match self.next_raw_token() {
                Some(token) => {
                    t = token;
                },
                None => {
                    if terminator.is_some() {
                        self.push_error(start_token.token.start, start_token.token.end, ErrorKind::NotClosedBlock);
                        break;
                    }
                    break;
                },
            }
        }
        self.b_finish();
        if terminated {
            let kw = self.keyword(t);
            self.b_token(kw, t);
        }
    }

    fn scan_if_block(&mut self, start_token: Tok)
        requires
            old(self).inv(),
            tok_ok(start_token, old(self).text()),
        ensures
            final(self).balanced(old(self)),
            final(self).size() == old(self).size() + 1,
            final(self).last_built() == (true, spec_raw(SyntaxKind::IfChain)),
            final(self).progress() < old(self).progress() || final(self).errors@.len() > old(
                self,
            ).errors@.len(),
        decreases old(self).progress(), rank_list(),
    {
        self.b_start(SyntaxKind::IfChain);
        self.b_start(SyntaxKind::IfBranch);
        let ghost d2 = self.depth();
        self.b_token(SyntaxKind::IfKeyword, start_token);
        self.eat_whitespace();
        self.b_start(SyntaxKind::Condition);
        if self.scan_expression() == ExpressionKind::Nothing {
            let end = self.get_current_position();
            self.push_error(start_token.token.end, end, ErrorKind::ExpectingExpression);
        }
        self.b_finish();
        self.eat_whitespace();
        let mut t = match self.peek_raw_token() {
            Some(token) => {
                if token.token.kind != TokenKind::Identifier || self.keyword(token)
                    != SyntaxKind::ThenKeyword {
                    let end = self.get_current_position();
                    self.push_error(start_token.token.start, end, ErrorKind::ExpectingThen);
                    self.b_finish();
                    self.b_finish();
                    return;
                } else {
                    self.next_raw_token();
                    self.b_token(SyntaxKind::ThenKeyword, token);
                    self.eat_whitespace();
                    match self.next_raw_token() {
                        Some(token) => token,
                        None => {
                            self.b_finish();
                            self.b_finish();
                            self.push_error(start_token.token.start, start_token.token.end, ErrorKind::NotClosedBlock);
                            return;
                        },
                    }
                }
            },
            None => {
                self.b_finish();
                self.b_finish();
                self.push_error(start_token.token.start, start_token.token.end, ErrorKind::NotClosedBlock);
                return;
            },
        };
        self.b_start(SyntaxKind::Block);
        let mut terminated = false;
        let mut seen_else = false;
        loop
            invariant_except_break
                self.depth().len() == old(self).depth().len() + 3,
                self.depth().take(old(self).depth().len() as int + 1) == old(self).depth().push(
                    (spec_raw(SyntaxKind::IfChain), old(self).size()),
                ),
                tok_ok(t, self.text()),
                !terminated,
            invariant
                self.keeps(old(self)),
                self.progress() < old(self).progress(),
                tok_ok(start_token, self.text()),
            ensures
                terminated ==> self.depth() == old(self).depth() && self.size() == old(self).size() + 1
                    && self.last_built() == (true, spec_raw(SyntaxKind::IfChain)),
                !terminated ==> self.depth().len() == old(self).depth().len() + 3
                    && self.depth().take(old(self).depth().len() as int + 1) == old(self).depth().push(
                    (spec_raw(SyntaxKind::IfChain), old(self).size()),
                ),
            decreases self.progress(),
        {
            match t.token.kind {
                TokenKind::Identifier => {
                    let keyword = self.keyword(t);
                    if !seen_else && keyword == SyntaxKind::ElseIfKeyword {
                        self.b_finish();
                        self.b_finish();
                        self.b_start(SyntaxKind::IfBranch);
                        self.b_token(SyntaxKind::ElseIfKeyword, t);
                        self.eat_whitespace();
                        self.b_start(SyntaxKind::Condition);
                        if self.scan_expression() == ExpressionKind::Nothing {
                            let end = self.get_current_position();
                            self.push_error(t.token.end, end, ErrorKind::ExpectingExpression);
                        }
                        self.b_finish();
                        match self.next_raw_token() {
                            Some(token) => {
                                t = token;
                                self.eat_whitespace();
                                if t.token.kind != TokenKind::Identifier || self.keyword(t)
                                    != SyntaxKind::ThenKeyword {
                                    let len = self.text_len;
                                    self.push_error(t.token.start, len, ErrorKind::ExpectingThen);
                                } else {
                                    self.b_token(SyntaxKind::ThenKeyword, t);
                                }
                            },
                            None => {},
                        }
                        self.b_start(SyntaxKind::Block);
                    } else if !seen_else && keyword == SyntaxKind::ElseKeyword {
                        self.b_finish();
                        self.b_finish();
                        self.b_start(SyntaxKind::ElseBranch);
                        self.b_token(SyntaxKind::ElseKeyword, t);
                        self.b_start(SyntaxKind::Block);
                        seen_else = true;
                    } else if keyword == SyntaxKind::EndKeyword {
                        self.b_finish();
                        self.b_token(SyntaxKind::EndKeyword, t);
                        self.b_finish();
                        self.b_finish();
                        terminated = true;
                        break;
                    } else {
                        self.scan_statement(t);
                    }
                },
                TokenKind::Semicolon => {
                    self.b_token(SyntaxKind::Semicolon, t);
                },
                TokenKind::LeftBracket => {
                    self.scan_statement(t);
                },
                _ => {
                    self.b_token(SyntaxKind::Invalid, t);
                    self.push_error(t.token.start, t.token.end, ErrorKind::UnexpectedToken);
                },
            }
            self.eat_whitespace();
            match self.next_raw_token() {
                Some(token) => {
                    t = token;
                },
                None => {
                    self.push_error(start_token.token.start, start_token.token.end, ErrorKind::NotClosedBlock);
                    break;
                },
            }
        }
        if !terminated {
            let ghost dd = self.depth();
            let ghost l0 = old(self).depth().len() as int;
            proof {
                assert(dd.take(l0 + 1)[l0] == dd[l0]);
            }
            self.b_finish();
            self.b_finish();
            proof {
                assert(self.depth() =~= dd.take(l0 + 1));
            }
            self.b_finish();
            proof {
                assert(self.depth() =~= dd.take(l0 + 1).drop_last());
            }
        }
    }

    /// Reads the fields of a table constructor. A list that opens with a
    /// value reads it; it stops before a token that cannot continue the list,
    /// which is then looked at, or at the end of the text.
    fn scan_field_list(&mut self)
        requires
            old(self).inv(),
        ensures
            final(self).balanced(old(self)),
            final(self).reads_if_value(old(self)),
            final(self).token_cache is Some || final(self).progress() == 0,
        decreases old(self).progress(), rank_list(),
    {
        let mut assign_expected = false;
        let mut comma_expected = false;
        let mut field_open = false;
        let ghost d0 = old(self).depth();
        let ghost s0 = old(self).size();
        let ghost opened = old(self).token_cache matches Some(t) && opens_value(t.token.kind);
        let ghost mut first_round = true;
        self.eat_whitespace();
        loop
            invariant_except_break
                !comma_expected ==> !field_open,
            invariant
                opened == (old(self).token_cache matches Some(t) && opens_value(t.token.kind)),
                first_round && opened ==> *self == *old(self) && !comma_expected,
                !first_round && opened ==> self.progress() < old(self).progress(),
                self.keeps(old(self)),
                d0 == old(self).depth(),
                s0 == old(self).size(),
                self.size() >= s0,
                field_open ==> self.depth().len() == d0.len() + 1 && self.depth().take(d0.len() as int) == d0 && self.depth().last().1 >= s0,
                !field_open ==> self.depth() == d0,
                d0.len() > 0 ==> d0.last().1 <= s0,
            ensures
                opened ==> !first_round,
                self.token_cache is Some || self.progress() == 0,
            decreases self.progress(), if comma_expected { 0int } else { 1int },
        {
            let t = match self.peek_raw_token() {
                Some(t) => t,
                None => { break; },
            };
            if !comma_expected {
                let checkpoint = self.b_checkpoint();
                let kind = self.scan_expression();
                proof {
                    first_round = false;
                }
                if kind != ExpressionKind::Nothing {
                    if kind != ExpressionKind::Name {
                        self.b_start_at(checkpoint, SyntaxKind::Expression);
                        self.b_finish();
                    } else {
                        assign_expected = true;
                    }
                    self.b_start_at(checkpoint, SyntaxKind::Field);
                    field_open = true;
                    comma_expected = true;
                    continue;
                }
            }
            match t.token.kind {
                TokenKind::LeftSquareBracket => {
                    if comma_expected {
                        self.push_error(t.token.start, t.token.end, ErrorKind::ExpectingComma);
                        break;
                    }
                    self.b_start(SyntaxKind::Field);
                    field_open = true;
                    self.next_raw_token();
                    self.eat_whitespace();
                    self.b_token(SyntaxKind::LeftSquareBracket, t);
                    if self.scan_expression() == ExpressionKind::Nothing {
                        self.push_error(t.token.start, t.token.end, ErrorKind::ExpectingExpression);
                        break;
                    }
                    self.eat_whitespace();
                    match self.peek_raw_token() {
                        Some(t) => {
                            if t.token.kind == TokenKind::RightSquareBracket {
                                self.next_raw_token();
                                self.b_token(SyntaxKind::RightSquareBracket, t);
                            } else {
                                self.push_error(t.token.start, t.token.end, ErrorKind::ExpectingClosingBracket);
                            }
                        },
                        None => {},
                    }
                    assign_expected = true;
                    comma_expected = true;
                },
                TokenKind::Comma | TokenKind::Semicolon => {
                    if field_open {
                        field_open = false;
                        self.b_finish();
                    }
                    if !comma_expected {
                        self.push_error(t.token.start, t.token.end, ErrorKind::UnexpectedOperator);
                        break;
                    }
                    assign_expected = false;
                    comma_expected = false;
                    self.next_raw_token();
                    if t.token.kind == TokenKind::Comma {
                        self.b_token(SyntaxKind::Comma, t);
                    } else {
                        self.b_token(SyntaxKind::Semicolon, t);
                    }
                },
                TokenKind::Assign => {
                    if !assign_expected {
                        self.push_error(t.token.start, t.token.end, ErrorKind::UnexpectedOperator);
                        break;
                    }
                    self.next_raw_token();
                    self.b_token(SyntaxKind::Assign, t);
                    self.eat_whitespace();
                    self.b_start(SyntaxKind::Expression);
                    self.scan_expression();
                    self.b_finish();
                    comma_expected = true;
                    assign_expected = false;
                },
                _ => { break; },
            }
            self.eat_whitespace();
        }
        if field_open {
            self.b_finish();
        }
    }

    /// Reads the whole text and gives the tree, whose root is a `Block` node;
    /// every error it records lies within the text, and when the text opens
    /// with a token that no statement begins with, the first error it adds is
    /// an unexpected-token error over that token. The text must not be
    /// empty: rowan's builder gives a tree only when something was built.
    pub fn process_all(&mut self) -> (tree: GreenNode)
        requires
            old(self).inv(),
            old(self).fresh(),
            old(self).text().len() > 0,
        ensures
            final(self).keeps(old(self)),
            final(self).progress() == 0,
            final(self).text() == old(self).text(),
            errors_within(final(self).errors_view(), byte_length(final(self).text())),
            green_kind(tree) == spec_raw(SyntaxKind::Block),
            stray_token(token_at(old(self).text(), 0).kind) ==> final(self).errors_view().len() > old(
                self,
            ).errors_view().len() && final(self).errors_view()[old(self).errors_view().len() as int]
                == (Error {
                start: token_at(old(self).text(), 0).start,
                end: token_at(old(self).text(), 0).end,
                kind: ErrorKind::UnexpectedToken,
            }),
    {
        match self.peek_raw_token() {
            Some(first) => {
                self.scan_block(None, first);
            },
            None => {},
        }
        let mut b = new_builder();
        std::mem::swap(&mut b, &mut self.builder);
        self.added = 0;
        proof {
            assert(built_elements(b) =~= seq![(true, spec_raw(SyntaxKind::Block))]);
        }
        finish(b)
    }
}

} // verus!
