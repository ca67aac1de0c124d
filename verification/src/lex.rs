//! The table-driven Lua lexer: a rule per token kind, each a regular
//! expression, handed to m_lexer, which takes at each position the longest
//! match (the earlier rule on a tie) and an error token where none matches.
use vstd::prelude::*;
use std::collections::HashMap;
use m_lexer::{Lexer, LexerBuilder};
use crate::syntax_kind::{spec_raw, SyntaxKind};

verus! {

broadcast use vstd::std_specs::hash::group_hash_axioms;

#[verifier::external_type_specification]
#[verifier::external_body]
pub struct ExLexer(Lexer);

#[verifier::external_type_specification]
#[verifier::external_body]
pub struct ExLexerBuilder(LexerBuilder);

/// The rules of the Lua lexer, in order: token kind and pattern.
pub open spec fn lua_rules() -> Seq<(SyntaxKind, Seq<char>)> {
    seq![
        (SyntaxKind::WHITESPACE, r"\s"@),
        (SyntaxKind::PLUS, r"\+"@),
        (SyntaxKind::MINUS, r"\-"@),
        (SyntaxKind::ASTERISK, r"\*"@),
        (SyntaxKind::SLASH, r"/"@),
        (SyntaxKind::MODULO, r"%"@),
        (SyntaxKind::HAT, r"\^"@),
        (SyntaxKind::HASH, r"#"@),
        (SyntaxKind::EQUALS, r"="@),
        (SyntaxKind::LESS_THAN, r"<"@),
        (SyntaxKind::GREATER_THAN, r">"@),
        (SyntaxKind::L_BRACKET, r"\("@),
        (SyntaxKind::R_BRACKET, r"\)"@),
        (SyntaxKind::L_CURLY_BRACKET, r"\{"@),
        (SyntaxKind::R_CURLY_BRACKET, r"\}"@),
        (SyntaxKind::L_SQUARE_BRACKET, r"\["@),
        (SyntaxKind::R_SQUARE_BRACKET, r"\]"@),
        (SyntaxKind::SEMICOLON, r";"@),
        (SyntaxKind::COLON, r":"@),
        (SyntaxKind::COMMA, r","@),
        (SyntaxKind::ONE_DOT, r"\."@),
        (SyntaxKind::TILDE, r"~"@),
        (SyntaxKind::AND_KEYWORD, "and"@),
        (SyntaxKind::BREAK_KEYWORD, "break"@),
        (SyntaxKind::DO_KEYWORD, "do"@),
        (SyntaxKind::ELSE_KEYWORD, "else"@),
        (SyntaxKind::ELSEIF_KEYWORD, "elseif"@),
        (SyntaxKind::END_KEYWORD, "end"@),
        (SyntaxKind::FALSE_KEYWORD, "false"@),
        (SyntaxKind::FOR_KEYWORD, "for"@),
        (SyntaxKind::FUNCTION_KEYWORD, "function"@),
        (SyntaxKind::IF_KEYWORD, "if"@),
        (SyntaxKind::IN_KEYWORD, "in"@),
        (SyntaxKind::LOCAL_KEYWORD, "local"@),
        (SyntaxKind::NIL_KEYWORD, "nil"@),
        (SyntaxKind::NOT_KEYWORD, "not"@),
        (SyntaxKind::OR_KEYWORD, "or"@),
        (SyntaxKind::REPEAT_KEYWORD, "repeat"@),
        (SyntaxKind::RETURN_KEYWORD, "return"@),
        (SyntaxKind::THEN_KEYWORD, "then"@),
        (SyntaxKind::TRUE_KEYWORD, "true"@),
        (SyntaxKind::UNTIL_KEYWORD, "until"@),
        (SyntaxKind::WHILE_KEYWORD, "while"@),
        (SyntaxKind::STRING, r#"\"[^\n]-\""#@),
        (SyntaxKind::STRING, r#"\[(=+)\[.-\](=+)\]"#@),
        (SyntaxKind::NAME, r"[\w_]+"@),
        (SyntaxKind::WHITESPACE, r"\s+"@)
    ]
}

/// The rules as m_lexer holds them: raw kind and pattern.
pub open spec fn raw_rules(rules: Seq<(SyntaxKind, Seq<char>)>) -> Seq<(u16, Seq<char>)> {
    rules.map_values(|r: (SyntaxKind, Seq<char>)| (spec_raw(r.0), r.1))
}

/// Whether `p` is one of the patterns of the Lua rules.
pub open spec fn is_lua_pattern(p: Seq<char>) -> bool {
    exists|i: int| 0 <= i < lua_rules().len() && #[trigger] lua_rules()[i].1 == p
}

/// The rules a builder holds, in the order they were added.
pub uninterp spec fn builder_rules(b: LexerBuilder) -> Seq<(u16, Seq<char>)>;

/// The error token kind a builder was given: none, or one.
pub uninterp spec fn builder_error(b: LexerBuilder) -> Seq<u16>;

/// The rules a lexer holds, in order.
pub uninterp spec fn lexer_rules(l: Lexer) -> Seq<(u16, Seq<char>)>;

/// The kind of a lexer's error tokens.
pub uninterp spec fn lexer_error(l: Lexer) -> Seq<u16>;

/// What m_lexer's `tokenize` gives for a text with these rules and error
/// kind: the kind and byte length of each token.
pub uninterp spec fn tokenization(rules: Seq<(u16, Seq<char>)>, error: Seq<u16>, text: Seq<char>) -> Seq<(u16, usize)>;

/// m_lexer's `LexerBuilder::new`: no rules and no error kind.
#[verifier::external_body]
fn new_builder() -> (b: LexerBuilder)
    ensures
        builder_rules(b) == Seq::<(u16, Seq<char>)>::empty(),
        builder_error(b) == Seq::<u16>::empty(),
{
    LexerBuilder::new()
}

/// m_lexer's `LexerBuilder::error_token`: sets the error kind, keeps the rules.
#[verifier::external_body]
fn with_error_token(b: LexerBuilder, kind: u16) -> (r: LexerBuilder)
    ensures
        builder_rules(r) == builder_rules(b),
        builder_error(r) == seq![kind],
{
    b.error_token(m_lexer::TokenKind(kind))
}

/// m_lexer's `LexerBuilder::token`: adds a rule at the end. m_lexer compiles
/// `^(pattern)` with regex and panics on a pattern that regex refuses; it is
/// called here with the patterns of the Lua rules only, which regex accepts.
#[verifier::external_body]
fn with_token(b: LexerBuilder, kind: u16, re: &str) -> (r: LexerBuilder)
    requires
        is_lua_pattern(re@),
    ensures
        builder_rules(r) == builder_rules(b).push((kind, re@)),
        builder_error(r) == builder_error(b),
{
    b.token(m_lexer::TokenKind(kind), re)
}

/// m_lexer's `LexerBuilder::build`, which panics without an error kind: a
/// lexer with the builder's rules and error kind.
#[verifier::external_body]
fn build(b: LexerBuilder) -> (l: Lexer)
    requires
        builder_error(b).len() == 1,
    ensures
        lexer_rules(l) == builder_rules(b),
        lexer_error(l) == builder_error(b),
{
    b.build()
}

/// m_lexer's `Lexer::tokenize`: the tokens of the text, as kind and byte
/// length. Its source shows that each token has a positive length, that the
/// lengths add up to the text's byte length, and that each kind is a rule's
/// or the error kind. It panics on a rule that matches the empty text, which
/// none of the Lua rules does.
#[verifier::external_body]
pub(crate) fn tokenize(l: &Lexer, text: &str) -> (r: Vec<(u16, usize)>)
    requires
        lexer_rules(*l) == raw_rules(lua_rules()),
        lexer_error(*l).len() == 1,
    ensures
        r@ == tokenization(lexer_rules(*l), lexer_error(*l), text@),
        forall|i: int| 0 <= i < r@.len() ==> #[trigger] r@[i].1 > 0,
        lengths_before(r@, r@.len() as int) == crate::unicode::byte_length(text@),
        forall|i: int|
            0 <= i < r@.len() ==> #[trigger] r@[i].0 == lexer_error(*l)[0] || exists|j: int|
                0 <= j < lexer_rules(*l).len() && lexer_rules(*l)[j].0 == r@[i].0,
{
    l.tokenize(text).into_iter().map(|t| (t.kind.0, t.len)).collect()
}

/// The total byte length of the first `i` tokens.
pub open spec fn lengths_before(tokens: Seq<(u16, usize)>, i: int) -> int
    decreases i,
{
    if i <= 0 {
        0
    } else {
        lengths_before(tokens, i - 1) + tokens[i - 1].1
    }
}

/// The map from the raw kind of each rule to its kind.
pub open spec fn reverse_map(rules: Seq<(SyntaxKind, Seq<char>)>) -> Map<u16, SyntaxKind>
    decreases rules.len(),
{
    if rules.len() == 0 {
        Map::empty()
    } else {
        reverse_map(rules.drop_last()).insert(spec_raw(rules.last().0), rules.last().0)
    }
}

/// The Lua lexer, with the map from the raw kind of each rule back to its kind.
pub fn get_lexer() -> (r: (Lexer, HashMap<u16, SyntaxKind>))
    ensures
        lexer_rules(r.0) == raw_rules(lua_rules()),
        lexer_error(r.0) == seq![spec_raw(SyntaxKind::NONE)],
        r.1@ == reverse_map(lua_rules()),
{
    let mut builder = new_builder();
    builder = with_error_token(builder, SyntaxKind::NONE.raw());
    let mut reverse: HashMap<u16, SyntaxKind> = HashMap::new();
    let rules: Vec<(SyntaxKind, &str)> = vec![
        (SyntaxKind::WHITESPACE, r"\s"),
        (SyntaxKind::PLUS, r"\+"),
        (SyntaxKind::MINUS, r"\-"),
        (SyntaxKind::ASTERISK, r"\*"),
        (SyntaxKind::SLASH, r"/"),
        (SyntaxKind::MODULO, r"%"),
        (SyntaxKind::HAT, r"\^"),
        (SyntaxKind::HASH, r"#"),
        (SyntaxKind::EQUALS, r"="),
        (SyntaxKind::LESS_THAN, r"<"),
        (SyntaxKind::GREATER_THAN, r">"),
        (SyntaxKind::L_BRACKET, r"\("),
        (SyntaxKind::R_BRACKET, r"\)"),
        (SyntaxKind::L_CURLY_BRACKET, r"\{"),
        (SyntaxKind::R_CURLY_BRACKET, r"\}"),
        (SyntaxKind::L_SQUARE_BRACKET, r"\["),
        (SyntaxKind::R_SQUARE_BRACKET, r"\]"),
        (SyntaxKind::SEMICOLON, r";"),
        (SyntaxKind::COLON, r":"),
        (SyntaxKind::COMMA, r","),
        (SyntaxKind::ONE_DOT, r"\."),
        (SyntaxKind::TILDE, r"~"),
        (SyntaxKind::AND_KEYWORD, "and"),
        (SyntaxKind::BREAK_KEYWORD, "break"),
        (SyntaxKind::DO_KEYWORD, "do"),
        (SyntaxKind::ELSE_KEYWORD, "else"),
        (SyntaxKind::ELSEIF_KEYWORD, "elseif"),
        (SyntaxKind::END_KEYWORD, "end"),
        (SyntaxKind::FALSE_KEYWORD, "false"),
        (SyntaxKind::FOR_KEYWORD, "for"),
        (SyntaxKind::FUNCTION_KEYWORD, "function"),
        (SyntaxKind::IF_KEYWORD, "if"),
        (SyntaxKind::IN_KEYWORD, "in"),
        (SyntaxKind::LOCAL_KEYWORD, "local"),
        (SyntaxKind::NIL_KEYWORD, "nil"),
        (SyntaxKind::NOT_KEYWORD, "not"),
        (SyntaxKind::OR_KEYWORD, "or"),
        (SyntaxKind::REPEAT_KEYWORD, "repeat"),
        (SyntaxKind::RETURN_KEYWORD, "return"),
        (SyntaxKind::THEN_KEYWORD, "then"),
        (SyntaxKind::TRUE_KEYWORD, "true"),
        (SyntaxKind::UNTIL_KEYWORD, "until"),
        (SyntaxKind::WHILE_KEYWORD, "while"),
        (SyntaxKind::STRING, r#"\"[^\n]-\""#),
        (SyntaxKind::STRING, r#"\[(=+)\[.-\](=+)\]"#),
        (SyntaxKind::NAME, r"[\w_]+"),
        (SyntaxKind::WHITESPACE, r"\s+")
    ];
    let ghost table = lua_rules();
    assert(rules@.map_values(|r: (SyntaxKind, &str)| (r.0, r.1@)) =~= table);
    let mut i: usize = 0;
    while i < rules.len()
        invariant
            i <= rules@.len(),
            table == lua_rules(),
            rules@.map_values(|r: (SyntaxKind, &str)| (r.0, r.1@)) == table,
            builder_rules(builder) == raw_rules(table.take(i as int)),
            builder_error(builder) == seq![spec_raw(SyntaxKind::NONE)],
            reverse@ == reverse_map(table.take(i as int)),
        decreases rules@.len() - i,
    {
        let (kind, re) = rules[i];
        assert(table[i as int] == (kind, re@));
        assert(lua_rules()[i as int].1 == re@);
        let k = kind.raw();
        builder = with_token(builder, k, re);
        reverse.insert(k, kind);
        assert(table.take(i + 1).drop_last() =~= table.take(i as int));
        assert(raw_rules(table.take(i + 1)) =~= raw_rules(table.take(i as int)).push((k, re@)));
        i = i + 1;
    }
    assert(table.take(rules@.len() as int) =~= table);
    (build(builder), reverse)
}

} // verus!
