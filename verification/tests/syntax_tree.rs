use wow_ls::ast::{hover_node, node_byte_len, node_text_of, tree_from_walk, tree_of, Element, Node, WalkStep};
use wow_ls::syntax::lexer::{Generator as TokenGenerator, Token, TokenKind};
use wow_ls::syntax::syntax::{kind_from_raw, str_to_keyword, to_raw, ErrorKind, Generator, SyntaxKind};

fn kinds_of(node: &Node) -> Vec<SyntaxKind> {
    let mut out = Vec::new();
    collect(node, &mut out);
    out
}

fn collect(node: &Node, out: &mut Vec<SyntaxKind>) {
    out.push(kind_from_raw(node.kind));
    for c in &node.children {
        match c {
            Element::Node(n) => collect(n, out),
            Element::Token(k, _) => out.push(kind_from_raw(*k)),
        }
    }
}

fn text_of(node: &Node) -> String {
    let mut s = String::new();
    for c in &node.children {
        match c {
            Element::Node(n) => s.push_str(&text_of(n)),
            Element::Token(_, t) => s.push_str(t),
        }
    }
    s
}

fn parse(text: &str) -> (Node, Generator) {
    let mut g = Generator::new(text);
    let green = g.process_all();
    let tree = tree_of(&green);
    (tree, g)
}

#[test]
fn token_offsets_are_bytes() {
    let mut g = TokenGenerator::new("local é = 1");
    let t = g.process_all();
    assert_eq!(t[0], Token { kind: TokenKind::Identifier, start: 0, end: 5 });
    assert_eq!(t[2], Token { kind: TokenKind::Identifier, start: 6, end: 8 });
    assert_eq!(t.last().unwrap(), &Token { kind: TokenKind::EoF, start: 12, end: 12 });
}

#[test]
fn triple_dot_and_long_strings() {
    let mut g = TokenGenerator::new("...[[a]]");
    let t = g.process_all();
    assert_eq!(t[0], Token { kind: TokenKind::TripleDot, start: 0, end: 3 });
    assert_eq!(t[1].start, 3);
    assert_eq!(t[1].end, 8);
    assert_eq!(t[2].kind, TokenKind::EoF);
}

#[test]
fn keywords() {
    assert_eq!(str_to_keyword("while"), SyntaxKind::WhileKeyword);
    assert_eq!(str_to_keyword("elseif"), SyntaxKind::ElseIfKeyword);
    assert_eq!(str_to_keyword("whiles"), SyntaxKind::Name);
    assert_eq!(str_to_keyword(""), SyntaxKind::Name);
}

#[test]
fn raw_kinds_round_trip() {
    let mut d: u16 = 0;
    while d <= 88 {
        assert_eq!(to_raw(kind_from_raw(d)), d);
        d += 1;
    }
    assert_eq!(to_raw(SyntaxKind::Invalid), 0);
    assert_eq!(to_raw(SyntaxKind::__LAST), 88);
}

#[test]
fn tree_keeps_the_text_of_a_valid_program() {
    let text = "local x = 1\nfunction f(a, b)\n  return a\nend\n";
    let (tree, g) = parse(text);
    assert!(g.errors().is_empty(), "{:?}", g.errors());
    assert_eq!(kind_from_raw(tree.kind), SyntaxKind::Block);
    assert_eq!(text_of(&tree), text);
}

#[test]
fn local_assignment_tree() {
    let (tree, g) = parse("local x = 1");
    assert!(g.errors().is_empty());
    let kinds = kinds_of(&tree);
    assert!(kinds.contains(&SyntaxKind::LocalAssignStatement), "{:?}", kinds);
    assert!(kinds.contains(&SyntaxKind::NameList), "{:?}", kinds);
    assert!(kinds.contains(&SyntaxKind::Literal), "{:?}", kinds);
}

#[test]
fn unclosed_block_is_reported() {
    let (_, g) = parse("while true do x()");
    assert!(g.errors().iter().any(|e| e.kind == ErrorKind::NotClosedBlock), "{:?}", g.errors());
}

#[test]
fn unterminated_comment_is_reported() {
    let (_, g) = parse("--[[ open");
    assert!(g.errors().iter().any(|e| e.kind == ErrorKind::NotClosedComment), "{:?}", g.errors());
}

#[test]
fn walk_rebuilds_a_tree() {
    let steps = vec![
        WalkStep::Enter(35),
        WalkStep::Token(5, String::from("x")),
        WalkStep::LeaveToken,
        WalkStep::Enter(66),
        WalkStep::Token(7, String::from("1")),
        WalkStep::LeaveToken,
        WalkStep::Leave,
        WalkStep::Leave,
    ];
    let tree = tree_from_walk(&steps).expect("well nested");
    assert_eq!(tree.kind, 35);
    assert_eq!(tree.children.len(), 2);
    match &tree.children[1] {
        Element::Node(n) => assert_eq!(n.kind, 66),
        Element::Token(_, _) => panic!("expected a node"),
    }
    assert!(tree_from_walk(&vec![WalkStep::Leave]).is_none());
    assert!(tree_from_walk(&vec![WalkStep::Enter(1)]).is_none());
    assert!(tree_from_walk(&vec![WalkStep::Enter(1), WalkStep::Leave, WalkStep::Enter(1), WalkStep::Leave]).is_none());
}

#[test]
fn tree_text_of_well_formed_statements() {
    for text in ["x = 1", "local function f() end", "while x do end", "repeat x() until y", "t = {a = 1, [2] = 3, 4; 5}"] {
        let (tree, _) = parse(text);
        assert_eq!(text_of(&tree), text);
    }
}

#[test]
fn table_and_string_arguments_repeat_their_first_token() {
    let (tree, _) = parse("f{1, 2}");
    assert_eq!(text_of(&tree), "f{{1, 2}");
    let (tree, _) = parse("f'str'");
    assert_eq!(text_of(&tree), "f'str''str'");
}

#[test]
fn for_loop_name_comes_after_its_whitespace() {
    let (tree, _) = parse("for i = 1, 10 do end");
    assert_eq!(text_of(&tree), "for  i= 1, 10 do end");
}

#[test]
fn root_is_a_block_even_for_broken_text() {
    for text in [")", "end", "function f(", "--[[ open", "x = = ="] {
        let (tree, _) = parse(text);
        assert_eq!(kind_from_raw(tree.kind), SyntaxKind::Block, "{:?}", text);
    }
}

#[test]
fn tokens_of_a_plain_statement_tile_the_text() {
    let text = "local ab = 12 + x";
    let mut g = TokenGenerator::new(text);
    let tokens: Vec<Token> = g.process_all();
    let real: Vec<&Token> = tokens.iter().filter(|t| t.kind != TokenKind::EoF).collect();
    assert_eq!(real[0].start, 0);
    for w in real.windows(2) {
        assert_eq!(w[0].end, w[1].start);
    }
    assert_eq!(real[real.len() - 1].end, text.len());
    let mut empty = TokenGenerator::new("");
    let only: Vec<Token> = empty.process_all();
    assert_eq!(only.len(), 1);
    assert_eq!(only[0].kind, TokenKind::EoF);
}

#[test]
fn the_tree_of_an_assignment_holds_its_text() {
    let mut g = Generator::new("x = 1");
    let root = tree_of(&g.process_all());
    assert_eq!(node_text_of(&root), "x = 1");
    assert_eq!(node_byte_len(&root), 5);
}

fn sample_tree() -> Node {
    let name = Node {
        kind: to_raw(SyntaxKind::Identifier),
        children: vec![Element::Token(to_raw(SyntaxKind::Name), String::from("ab"))],
    };
    Node {
        kind: to_raw(SyntaxKind::Block),
        children: vec![
            Element::Node(name),
            Element::Token(to_raw(SyntaxKind::Whitespace), String::from(" ")),
            Element::Token(to_raw(SyntaxKind::Number), String::from("12")),
        ],
    }
}

#[test]
fn hover_finds_the_node_above_the_token() {
    let root = sample_tree();
    assert_eq!(node_text_of(&root), "ab 12");
    let (described, start, end) = hover_node(&root, 1).expect("a token holds byte 1");
    assert_eq!(described.map(|n| n.kind), Some(to_raw(SyntaxKind::Block)));
    assert_eq!((start, end), (0, 2));
    let (described, start, end) = hover_node(&root, 2).expect("a token holds byte 2");
    assert_eq!(described.map(|n| n.kind), Some(to_raw(SyntaxKind::Block)));
    assert_eq!((start, end), (0, 5));
    let (_, start, end) = hover_node(&root, 5).expect("the end of the text is the last token");
    assert_eq!((start, end), (0, 5));
    assert!(hover_node(&root, 6).is_none());
    let empty = Node { kind: to_raw(SyntaxKind::Block), children: Vec::new() };
    assert!(hover_node(&empty, 0).is_none());
}

#[test]
fn hover_skips_identifier_nodes_only() {
    let inner = Node {
        kind: to_raw(SyntaxKind::Identifier),
        children: vec![Element::Token(to_raw(SyntaxKind::Name), String::from("f"))],
    };
    let call = Node { kind: to_raw(SyntaxKind::FunctionCall), children: vec![Element::Node(inner)] };
    let root = Node { kind: to_raw(SyntaxKind::Block), children: vec![Element::Node(call)] };
    let (described, start, end) = hover_node(&root, 0).expect("a token holds byte 0");
    let d = described.expect("a node that is not an identifier");
    assert_eq!(d.kind, to_raw(SyntaxKind::FunctionCall));
    assert_eq!(node_text_of(d), "f");
    assert_eq!((start, end), (0, 1));
}

#[test]
fn a_counting_for_loop_moves_its_name_after_the_following_space() {
    let text = "for i = 1, 2 do end";
    let mut g = Generator::new(text);
    let root = tree_of(&g.process_all());
    let tree_text = node_text_of(&root);
    assert_ne!(tree_text, text);
    assert_eq!(tree_text.len(), text.len());
    assert!(tree_text.starts_with("for  i="), "{:?}", tree_text);
}

fn find_literal(node: &Node) -> Option<&Node> {
    if node.kind == to_raw(SyntaxKind::Literal) {
        return Some(node);
    }
    for c in &node.children {
        if let Element::Node(n) = c {
            if let Some(found) = find_literal(n) {
                return Some(found);
            }
        }
    }
    None
}

#[test]
fn a_number_operand_is_a_literal_holding_its_token() {
    let mut g = Generator::new("x = 12ab");
    let root = tree_of(&g.process_all());
    let literal = find_literal(&root).expect("a literal");
    assert_eq!(literal.children.len(), 1);
    match &literal.children[0] {
        Element::Token(k, t) => {
            assert_eq!(*k, to_raw(SyntaxKind::Number));
            assert_eq!(t, "12ab");
        }
        Element::Node(_) => panic!("a token was expected"),
    }
}

fn find_kind(node: &Node, kind: u16) -> Option<&Node> {
    if node.kind == kind {
        return Some(node);
    }
    for c in &node.children {
        if let Element::Node(n) = c {
            if let Some(found) = find_kind(n, kind) {
                return Some(found);
            }
        }
    }
    None
}

#[test]
fn a_name_list_holds_its_names_commas_and_spaces() {
    let mut g = Generator::new("local a, b = 1");
    let root = tree_of(&g.process_all());
    let list = find_kind(&root, to_raw(SyntaxKind::NameList)).expect("a name list");
    let tokens: Vec<(u16, String)> = list
        .children
        .iter()
        .map(|c| match c {
            Element::Token(k, t) => (*k, t.clone()),
            Element::Node(_) => panic!("only tokens"),
        })
        .collect();
    assert_eq!(
        tokens,
        vec![
            (to_raw(SyntaxKind::Name), String::from("a")),
            (to_raw(SyntaxKind::Comma), String::from(",")),
            (to_raw(SyntaxKind::Whitespace), String::from(" ")),
            (to_raw(SyntaxKind::Name), String::from("b")),
            (to_raw(SyntaxKind::Whitespace), String::from(" ")),
        ]
    );
    assert!(g.errors().is_empty());
}
