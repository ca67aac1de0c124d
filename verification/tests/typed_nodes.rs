use wow_ls::ast::typed::text_of;
use wow_ls::ast::{
    tree_of, AstNode, Block, Element, Expression, ExpressionList, FunctionDefinition, Identifier, Literal,
    Node, Operator, Statement,
};
use wow_ls::syntax::syntax::{kind_from_raw, to_raw, Generator, SyntaxKind};

fn parse(text: &str) -> Node {
    let mut g = Generator::new(text);
    tree_of(&g.process_all())
}

fn statements(tree: &Node) -> Vec<Statement<'_>> {
    Block::cast(tree).expect("a block").statements()
}

#[test]
fn global_method_definition() {
    let tree = parse("function a.b:c(x) end");
    let st = statements(&tree);
    assert_eq!(st.len(), 1);
    let Statement::FunctionDefinition(f) = st[0] else { panic!("a function definition") };
    assert!(!f.is_local());
    let id = f.identifier().expect("a name");
    assert_eq!(id.names(), vec!["a", "b", "c"]);
    assert!(id.is_call_to_self());
    assert!(!id.is_indexed_expression());
    let params = f.params().expect("parameters");
    assert_eq!(params.parameters(), vec!["x"]);
    assert!(!params.ellipsis());
    assert!(f.block().is_some());
    assert_eq!(kind_from_raw(f.syntax().kind), SyntaxKind::FunctionDefinition);
}

#[test]
fn local_function_has_no_identifier_node() {
    let tree = parse("local function f(a, ...) return a end");
    let st = statements(&tree);
    let Statement::FunctionDefinition(f) = st[0] else { panic!("a function definition") };
    assert!(f.is_local());
    assert!(f.identifier().is_none());
    let params = f.params().expect("parameters");
    assert_eq!(params.parameters(), vec!["a"]);
    assert!(params.ellipsis());
    // A return statement is not among the statements a block gives.
    assert!(f.block().expect("a body").statements().is_empty());
}

#[test]
fn local_assignment_parts() {
    let tree = parse("local x, y = 1, 'a'");
    let st = statements(&tree);
    let Statement::LocalAssign(a) = st[0] else { panic!("a local assignment") };
    assert_eq!(a.name_list().expect("names").names(), vec!["x", "y"]);
    let values = a.expression_list().expect("values").expressions();
    assert_eq!(values.len(), 2);
    let Expression::Literal(one) = values[0] else { panic!("a literal") };
    assert_eq!(one.get_number(), Some(String::from("1")));
    assert_eq!(one.get_string(), None);
    assert!(!one.is_nil());
    let Expression::Literal(a_str) = values[1] else { panic!("a literal") };
    assert_eq!(a_str.get_string(), Some(String::from("'a'")));
    assert_eq!(a_str.get_bool(), None);
}

#[test]
fn assignments_are_not_statements_of_a_block() {
    let tree = parse("x = 1");
    assert!(statements(&tree).is_empty());
    assert!(Statement::cast(&tree).is_none());
}

#[test]
fn loops_and_their_parts() {
    let tree = parse("for i = 1, 10 do end");
    let Statement::ForCountLoop(l) = statements(&tree)[0] else { panic!("a counting loop") };
    assert_eq!(l.name(), Some(String::from("i")));
    assert_eq!(l.expression_list().expect("bounds").expressions().len(), 2);
    assert!(l.block().is_some());

    let tree = parse("for k, v in pairs(t) do end");
    let Statement::ForInLoop(l) = statements(&tree)[0] else { panic!("a for-in loop") };
    assert_eq!(l.name_list().expect("names").names(), vec!["k", "v"]);
    assert!(l.expression_list().is_some());
    assert!(l.block().is_some());

    let tree = parse("while true do end");
    let Statement::While(w) = statements(&tree)[0] else { panic!("a while loop") };
    // The condition stands in a Condition node, which is no expression.
    assert!(w.condition().is_none());
    assert!(w.block().is_some());

    let tree = parse("repeat x() until y");
    let Statement::Repeat(r) = statements(&tree)[0] else { panic!("a repeat loop") };
    let Some(Expression::Identifier(y)) = r.condition() else { panic!("an identifier") };
    assert_eq!(y.names(), vec!["y"]);
    assert_eq!(r.block().expect("a body").statements().len(), 1);

    let tree = parse("do end");
    let Statement::Do(d) = statements(&tree)[0] else { panic!("a do block") };
    assert!(d.block().is_some());
}

#[test]
fn if_chain_branches() {
    let tree = parse("if x then y() elseif z then w() else v() end");
    let Statement::If(chain) = statements(&tree)[0] else { panic!("an if chain") };
    let branches = chain.if_branches();
    assert_eq!(branches.len(), 2);
    assert!(branches[0].expression().is_none());
    assert_eq!(branches[1].block().expect("a body").statements().len(), 1);
    let e = chain.else_branch().expect("an else branch");
    assert!(e.expression().is_none());
    let body = e.block().expect("a body").statements();
    let Statement::FunctionCall(call) = body[0] else { panic!("a call") };
    assert_eq!(call.identifier().expect("a target").names(), vec!["v"]);
    // The arguments stand in an ArgumentList node, not an expression list.
    assert!(call.arguments().is_none());
}

#[test]
fn operators_and_text() {
    let tree = parse("x = -a + b");
    let assign = &tree.children.iter().find_map(|c| match c {
        wow_ls::ast::Element::Node(n) => Some(n),
        _ => None,
    }).expect("a statement node");
    let list = assign.children.iter().find_map(|c| match c {
        wow_ls::ast::Element::Node(n) if n.kind == to_raw(SyntaxKind::ExpressionList) => Some(n),
        _ => None,
    }).expect("values");
    let values = ExpressionList::cast(list).expect("an expression list").expressions();
    let Expression::BinaryExpression(sum) = values[0] else { panic!("a binary expression") };
    assert!(matches!(sum.kind(), Operator::Add));
    assert_eq!(text_of(sum.syntax()), "-a + b");
    assert_eq!(text_of(&tree), "x = -a + b");
    // A binary or unary view is made from an expression-list node.
    assert!(wow_ls::ast::BinaryExpression::cast(list).is_some());
    assert!(wow_ls::ast::UnaryExpression::cast(list).is_some());
    assert!(FunctionDefinition::cast(list).is_none());
    assert!(Identifier::cast(list).is_none());
}

fn first_child_of_kind(n: &Node, k: SyntaxKind) -> &Node {
    n.children.iter().find_map(|c| match c {
        wow_ls::ast::Element::Node(m) if m.kind == to_raw(k) => Some(m),
        _ => None,
    }).expect("a child of that kind")
}

#[test]
fn assignment_views() {
    let tree = parse("a.b = (d), {1}");
    let stat = first_child_of_kind(&tree, SyntaxKind::AssignStatement);
    let assign = wow_ls::ast::Assign::cast(stat).expect("an assignment");
    let targets = assign.variable_list().expect("targets").identifiers();
    assert_eq!(targets.len(), 1);
    assert_eq!(targets[0].names(), vec!["a", "b"]);
    let list = assign.expression_list().expect("values");
    let values = list.expressions();
    // The bracketed value stands in an Expression node, which is no expression kind.
    assert_eq!(values.len(), 1);
    let Expression::TableConstructor(t) = values[0] else { panic!("a table") };
    // The fields are direct children of the table, not an expression list.
    assert!(t.expression_list().is_none());
    let wrapper = first_child_of_kind(list.syntax(), SyntaxKind::Expression);
    let g = wow_ls::ast::GroupedExpression::cast(first_child_of_kind(wrapper, SyntaxKind::GroupedExpression))
        .expect("a grouped expression");
    let Some(Expression::Identifier(d)) = g.get_expression() else { panic!("an identifier") };
    assert_eq!(d.names(), vec!["d"]);
    assert!(g.get_term().is_some());
    let unary = wow_ls::ast::UnaryExpression::cast(list.syntax()).expect("made from a list");
    assert_eq!(unary.get_terms().len(), 1);
    assert!(matches!(unary.kind(), Operator::NoOperator));
}

#[test]
fn literal_values_of_a_built_node() {
    let t = Node { kind: to_raw(SyntaxKind::Literal), children: vec![Element::Token(to_raw(SyntaxKind::TrueKeyword), String::from("true"))] };
    let lit = Literal::cast(&t).expect("a literal");
    assert_eq!(lit.get_bool(), Some(String::from("true")));
    assert_eq!(lit.get_number(), None);
    assert!(!lit.is_nil());
    let n = Node { kind: to_raw(SyntaxKind::Literal), children: vec![Element::Token(to_raw(SyntaxKind::NilKeyword), String::from("nil"))] };
    let nil = Literal::cast(&n).expect("a literal");
    assert!(nil.is_nil());
    assert_eq!(nil.get_bool(), None);
    assert!(Literal::cast(&Node { kind: to_raw(SyntaxKind::Block), children: vec![] }).is_none());
}
