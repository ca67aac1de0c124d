use wow_ls::lexer::token_modifier;
use wow_ls::lexer::token_validity;
use wow_ls::lexer::{LuaLexer, Position, Token, TokenKind};

fn pos(line: usize, column: usize, absolute: usize) -> Position {
    Position { line, column, absolute }
}

fn tokens(text: &str) -> Vec<Token> {
    let mut lexer = LuaLexer::new(text);
    lexer.process()
}

fn tok(kind: TokenKind, start: Position, end: Position) -> Token {
    Token { kind, start, end }
}

#[test]
fn local_assignment_tokens() {
    let t = tokens("local x = 10");
    let number = TokenKind::Number {
        validity: token_validity::Number::Valid,
        modifier: token_modifier::Number::Integer,
    };
    let expected = vec![
        tok(TokenKind::Identifier, pos(0, 0, 0), pos(0, 4, 4)),
        tok(TokenKind::Whitespace, pos(0, 5, 5), pos(0, 5, 5)),
        tok(TokenKind::Identifier, pos(0, 6, 6), pos(0, 6, 6)),
        tok(TokenKind::Whitespace, pos(0, 7, 7), pos(0, 7, 7)),
        tok(TokenKind::Assign, pos(0, 8, 8), pos(0, 8, 8)),
        tok(TokenKind::Whitespace, pos(0, 9, 9), pos(0, 9, 9)),
        tok(number, pos(0, 10, 10), pos(0, 11, 11)),
        tok(TokenKind::EoF, pos(0, 12, 12), pos(0, 12, 12)),
    ];
    assert_eq!(t, expected);
}

#[test]
fn lines_and_columns() {
    let t = tokens("a\nb");
    assert_eq!(t.len(), 4);
    assert_eq!(t[1], tok(TokenKind::Newline, pos(0, 1, 1), pos(0, 1, 1)));
    assert_eq!(t[2], tok(TokenKind::Identifier, pos(1, 0, 2), pos(1, 0, 2)));
    assert_eq!(t[3], tok(TokenKind::EoF, pos(1, 1, 3), pos(1, 1, 3)));
}

#[test]
fn carriage_return_newline_is_one_token() {
    let t = tokens("\r\nx");
    assert_eq!(t[0], tok(TokenKind::Newline, pos(0, 0, 0), pos(0, 1, 1)));
    assert_eq!(t[1], tok(TokenKind::Identifier, pos(1, 0, 2), pos(1, 0, 2)));
}

#[test]
fn columns_count_bytes() {
    let t = tokens("é x");
    assert_eq!(t[0], tok(TokenKind::Identifier, pos(0, 0, 0), pos(0, 0, 0)));
    assert_eq!(t[1], tok(TokenKind::Whitespace, pos(0, 2, 2), pos(0, 2, 2)));
    assert_eq!(t[2], tok(TokenKind::Identifier, pos(0, 3, 3), pos(0, 3, 3)));
    assert_eq!(t[3], tok(TokenKind::EoF, pos(0, 4, 4), pos(0, 4, 4)));
}

#[test]
fn triple_dot_leaves_its_last_dot() {
    let t = tokens("...");
    assert_eq!(t[0], tok(TokenKind::TripleDot, pos(0, 0, 0), pos(0, 2, 2)));
    assert_eq!(t[1], tok(TokenKind::Dot, pos(0, 2, 2), pos(0, 2, 2)));
    assert_eq!(t[2].kind, TokenKind::EoF);
}

#[test]
fn double_dash_at_the_end_is_minus() {
    let t = tokens("--");
    assert_eq!(t, vec![
        tok(TokenKind::Minus, pos(0, 0, 0), pos(0, 0, 0)),
        tok(TokenKind::EoF, pos(0, 2, 2), pos(0, 2, 2)),
    ]);
}

#[test]
fn line_comment() {
    let t = tokens("-- hi\nx");
    let comment = TokenKind::Comment {
        validity: token_validity::Comment::Valid,
        modifier: token_modifier::Comment::Oneline,
    };
    assert_eq!(t[0], tok(comment, pos(0, 0, 0), pos(0, 4, 4)));
    assert_eq!(t[1], tok(TokenKind::Newline, pos(0, 5, 5), pos(0, 5, 5)));
    assert_eq!(t[2], tok(TokenKind::Identifier, pos(1, 0, 6), pos(1, 0, 6)));
}

#[test]
fn long_bracket_string_leaves_its_second_bracket() {
    let t = tokens("[[ab]]");
    let string = TokenKind::String {
        validity: token_validity::String::Valid,
        modifier: token_modifier::String::LongBrackets,
    };
    assert_eq!(t[0], tok(string, pos(0, 0, 0), pos(0, 5, 5)));
    assert_eq!(t[1], tok(TokenKind::RightSquareBracket, pos(0, 5, 5), pos(0, 5, 5)));
    assert_eq!(t[2].kind, TokenKind::EoF);
}

#[test]
fn long_bracket_with_level() {
    let t = tokens("[==[a]==]");
    let string = TokenKind::String {
        validity: token_validity::String::Valid,
        modifier: token_modifier::String::LongBrackets,
    };
    assert_eq!(t[0], tok(string, pos(0, 0, 0), pos(0, 8, 8)));
    assert_eq!(t[1].kind, TokenKind::EoF);
}

#[test]
fn unterminated_long_bracket_stops_at_the_end() {
    let t = tokens("[==");
    let string = TokenKind::String {
        validity: token_validity::String::NotTerminated,
        modifier: token_modifier::String::LongBrackets,
    };
    assert_eq!(t[0], tok(string, pos(0, 0, 0), pos(0, 0, 0)));
    assert_eq!(t[1], tok(TokenKind::EoF, pos(0, 3, 3), pos(0, 3, 3)));
}

#[test]
fn quoted_strings() {
    let t = tokens("\"a\\\"b\"");
    let valid = TokenKind::String {
        validity: token_validity::String::Valid,
        modifier: token_modifier::String::DoubleQuotes,
    };
    let open = TokenKind::String {
        validity: token_validity::String::NotTerminated,
        modifier: token_modifier::String::DoubleQuotes,
    };
    assert_eq!(t[0], tok(valid, pos(0, 0, 0), pos(0, 3, 3)));
    assert_eq!(t[1], tok(TokenKind::Identifier, pos(0, 4, 4), pos(0, 4, 4)));
    assert_eq!(t[2], tok(open, pos(0, 5, 5), pos(0, 5, 5)));
    assert_eq!(t[3].kind, TokenKind::EoF);
}

#[test]
fn quoted_string_ends_at_line_break() {
    let t = tokens("'ab\nc");
    let open = TokenKind::String {
        validity: token_validity::String::NotTerminated,
        modifier: token_modifier::String::Quotes,
    };
    assert_eq!(t[0], tok(open, pos(0, 0, 0), pos(0, 2, 2)));
    assert_eq!(t[1].kind, TokenKind::Newline);
}

#[test]
fn numbers() {
    let t = tokens("0x1F 1.5e+3 12a");
    assert_eq!(t[0].kind, TokenKind::Number {
        validity: token_validity::Number::Valid,
        modifier: token_modifier::Number::Hex,
    });
    assert_eq!(t[0].end, pos(0, 3, 3));
    assert_eq!(t[2].kind, TokenKind::Number {
        validity: token_validity::Number::Valid,
        modifier: token_modifier::Number::Exponential,
    });
    assert_eq!(t[2].start, pos(0, 5, 5));
    assert_eq!(t[2].end, pos(0, 10, 10));
    assert_eq!(t[4].kind, TokenKind::Number {
        validity: token_validity::Number::Invalid,
        modifier: token_modifier::Number::Integer,
    });
}

#[test]
fn operators() {
    let t = tokens("==~=<=>=<>~#^");
    let kinds: Vec<TokenKind> = t.iter().map(|t| t.kind).collect();
    assert_eq!(kinds, vec![
        TokenKind::EqualsBoolean,
        TokenKind::NotEqualsBoolean,
        TokenKind::LessThanOrEquals,
        TokenKind::GreaterThanOrEquals,
        TokenKind::LessThan,
        TokenKind::GreaterThan,
        TokenKind::Invalid,
        TokenKind::Hash,
        TokenKind::Hat,
        TokenKind::EoF,
    ]);
}

#[test]
fn bracket_before_the_end_is_a_dot() {
    let t = tokens("[");
    assert_eq!(t[0], tok(TokenKind::Dot, pos(0, 0, 0), pos(0, 0, 0)));
    let t = tokens("[x");
    assert_eq!(t[0], tok(TokenKind::LeftSquareBracket, pos(0, 0, 0), pos(0, 1, 1)));
}

#[test]
fn empty_text_gives_end_of_file_only() {
    let t = tokens("");
    assert_eq!(t, vec![tok(TokenKind::EoF, pos(0, 0, 0), pos(0, 0, 0))]);
}

#[test]
fn token_starts_increase() {
    let t = tokens("local t = {a = [[x]], b = 'y'} -- c\nreturn t.a .. 0x10");
    for w in t.windows(2) {
        assert!(w[0].start.absolute < w[1].start.absolute || w[1].kind == TokenKind::EoF);
        assert!(w[0].start.absolute <= w[0].end.absolute);
    }
}
