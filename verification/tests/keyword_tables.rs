use wow_ls::green;
use wow_ls::lex::get_lexer;
use wow_ls::parse::{parse_text, GroundedToken};
use wow_ls::syntax_kind::{from_string, SyntaxKind};

#[test]
fn keyword_kinds() {
    assert!(SyntaxKind::AND_KEYWORD.is_keyword());
    assert!(SyntaxKind::WHILE_KEYWORD.is_keyword());
    assert!(!SyntaxKind::PLUS.is_keyword());
    assert!(!SyntaxKind::NAME.is_keyword());
}

#[test]
fn punctuation_kinds() {
    assert!(SyntaxKind::PLUS.is_punct());
    assert!(SyntaxKind::ONE_DOT.is_punct());
    assert!(!SyntaxKind::TWO_DOTS.is_punct());
    assert!(!SyntaxKind::IF_KEYWORD.is_punct());
}

#[test]
fn literal_kinds() {
    assert!(SyntaxKind::STRING.is_literal());
    assert!(SyntaxKind::NUMBER.is_literal());
    assert!(!SyntaxKind::NAME.is_literal());
}

#[test]
fn keywords_from_text() {
    assert_eq!(SyntaxKind::from_keyword("function"), Some(SyntaxKind::FUNCTION_KEYWORD));
    assert_eq!(SyntaxKind::from_keyword("until"), Some(SyntaxKind::UNTIL_KEYWORD));
    assert_eq!(SyntaxKind::from_keyword("Function"), None);
    assert_eq!(SyntaxKind::from_keyword(""), None);
}

#[test]
fn operators_from_text() {
    assert_eq!(SyntaxKind::from_operator("+"), Some(SyntaxKind::PLUS));
    assert_eq!(SyntaxKind::from_operator("."), Some(SyntaxKind::ONE_DOT));
    assert_eq!(SyntaxKind::from_operator("=="), None);
    assert_eq!(SyntaxKind::from_operator("a"), None);
}

#[test]
fn kinds_from_any_text() {
    assert_eq!(from_string("local"), SyntaxKind::LOCAL_KEYWORD);
    assert_eq!(from_string("~"), SyntaxKind::TILDE);
    assert_eq!(from_string("foo"), SyntaxKind::NONE);
}

#[test]
fn raw_values() {
    assert_eq!(SyntaxKind::NONE.raw(), 0);
    assert_eq!(SyntaxKind::WHITESPACE.raw(), 1);
    assert_eq!(SyntaxKind::NAME.raw(), 77);
}

#[test]
fn first_generator_keywords() {
    assert_eq!(green::str_to_keyword("repeat"), green::SyntaxKind::RepeatKeyword);
    assert_eq!(green::str_to_keyword("x"), green::SyntaxKind::Name);
    assert_eq!(green::to_raw(green::kind_from_raw(40)), 40);
}

#[test]
fn lexer_table_reverse_map() {
    let (_, reverse) = get_lexer();
    assert_eq!(reverse.get(&SyntaxKind::NAME.raw()), Some(&SyntaxKind::NAME));
    assert_eq!(reverse.get(&SyntaxKind::STRING.raw()), Some(&SyntaxKind::STRING));
    assert_eq!(reverse.get(&SyntaxKind::NONE.raw()), None);
    assert_eq!(reverse.len(), 45);
}

#[test]
fn grounded_tokens() {
    let toks = parse_text("local x=1").expect("every character matched");
    assert_eq!(toks, vec![
        GroundedToken { start: 0, end: 5, kind: SyntaxKind::LOCAL_KEYWORD },
        GroundedToken { start: 5, end: 6, kind: SyntaxKind::WHITESPACE },
        GroundedToken { start: 6, end: 7, kind: SyntaxKind::NAME },
        GroundedToken { start: 7, end: 8, kind: SyntaxKind::EQUALS },
        GroundedToken { start: 8, end: 9, kind: SyntaxKind::NAME },
    ]);
}

#[test]
fn unmatched_character_gives_none() {
    assert!(parse_text("a ! b").is_none());
    assert_eq!(parse_text("").map(|v| v.len()), Some(0));
}

#[test]
fn grounded_tokens_cover_the_text() {
    let text = "while é do\n  x = [==[a]==] .. y\nend";
    let toks = parse_text(text).expect("every character matched");
    assert_eq!(toks[0].start, 0);
    for w in toks.windows(2) {
        assert!(w[0].start < w[0].end);
        assert_eq!(w[0].end, w[1].start);
    }
    assert_eq!(toks.last().unwrap().end, text.len());
}
