use wow_ls::ast::tree_of;
use wow_ls::syntax::syntax::Generator;
use wow_ls::variables::{get_types, TypeEnvironment, ValueType};

fn types(text: &str) -> TypeEnvironment {
    let mut g = Generator::new(text);
    let green = g.process_all();
    get_types(&green, "test.lua").expect("the root is a block")
}

fn is(t: &ValueType, expected: &ValueType) -> bool {
    t.same(expected)
}

fn table(fields: Vec<(&str, ValueType)>) -> ValueType {
    ValueType::Table { fields: fields.into_iter().map(|(k, v)| (String::from(k), v)).collect() }
}

#[test]
fn set_local_then_lookup() {
    let mut env = TypeEnvironment::new();
    env.set_local(String::from("x"), ValueType::Number);
    assert!(is(&env.lookup("x"), &ValueType::Number));
    assert!(is(&env.lookup("y"), &ValueType::Unknown));
}

#[test]
fn inner_scope_shadows_and_pop_restores() {
    let mut env = TypeEnvironment::new();
    env.set_local(String::from("x"), ValueType::Number);
    env.push_scope();
    assert!(is(&env.lookup("x"), &ValueType::Number));
    env.set_local(String::from("x"), ValueType::String);
    assert!(is(&env.lookup("x"), &ValueType::String));
    env.pop_scope();
    assert!(is(&env.lookup("x"), &ValueType::Number));
    env.pop_scope();
    assert!(is(&env.lookup("x"), &ValueType::Number));
}

#[test]
fn globals_behind_locals() {
    let mut env = TypeEnvironment::new();
    env.set_global(String::from("g"), ValueType::Boolean);
    assert!(is(&env.lookup("g"), &ValueType::Boolean));
    env.set_local(String::from("g"), ValueType::Nil);
    assert!(is(&env.lookup("g"), &ValueType::Nil));
}

#[test]
fn update_goes_where_the_name_is_defined() {
    let mut env = TypeEnvironment::new();
    env.set_local(String::from("x"), ValueType::Number);
    env.push_scope();
    env.update_in_scope_or_global("x", ValueType::String);
    env.update_in_scope_or_global("y", ValueType::Boolean);
    env.pop_scope();
    assert!(is(&env.lookup("x"), &ValueType::String));
    assert!(is(&env.lookup("y"), &ValueType::Boolean));
}

#[test]
fn table_fields_are_set() {
    let mut env = TypeEnvironment::new();
    env.update_table_field("t", "a", ValueType::Number);
    env.update_table_field("t", "b", ValueType::String);
    env.update_table_field("t", "a", ValueType::Boolean);
    let expected = table(vec![("b", ValueType::String), ("a", ValueType::Boolean)]);
    assert!(is(&env.lookup("t"), &expected));
}

#[test]
fn equality_ignores_field_order() {
    let a = table(vec![("x", ValueType::Number), ("y", ValueType::String)]);
    let b = table(vec![("y", ValueType::String), ("x", ValueType::Number)]);
    let c = table(vec![("x", ValueType::Number)]);
    assert!(a.same(&b));
    assert!(!a.same(&c));
    let f = ValueType::Function { params: vec![ValueType::Unknown], results: vec![] };
    let g = ValueType::Function { params: vec![], results: vec![] };
    assert!(!f.same(&g));
    assert!(f.same(&f.copy()));
}

#[test]
fn local_literals() {
    let env = types("local a = 1\nlocal b = \"s\"\nlocal c = true\nlocal d = nil\nlocal e\n");
    assert!(is(&env.lookup("a"), &ValueType::Number));
    assert!(is(&env.lookup("b"), &ValueType::String));
    // `true` is a bare keyword token, no literal node: nothing to type, so nil
    assert!(is(&env.lookup("c"), &ValueType::Nil));
    assert!(is(&env.lookup("d"), &ValueType::Nil));
    // `local e` without `=` builds no local assignment statement
    assert!(is(&env.lookup("e"), &ValueType::Unknown));
}

#[test]
fn local_copies_a_name() {
    let env = types("local a = 1\nlocal b = a\n");
    assert!(is(&env.lookup("b"), &ValueType::Number));
}

#[test]
fn function_types() {
    let env = types("function f(p, q)\n  return \"x\"\nend\n");
    // the values of a return statement are not wrapped in an expression list
    // node, so a return counts as one without values: nil
    let expected = ValueType::Function {
        params: vec![ValueType::Unknown, ValueType::Unknown],
        results: vec![ValueType::Nil],
    };
    assert!(is(&env.lookup("f"), &expected));
    assert!(is(&env.lookup("p"), &ValueType::Unknown));
}

#[test]
fn block_locals_do_not_leak() {
    let env = types("do\n  local inner = 1\nend\n");
    assert!(is(&env.lookup("inner"), &ValueType::Unknown));
}

#[test]
fn root_must_be_a_block() {
    let mut g = Generator::new("local a = 1");
    let green = g.process_all();
    let tree = tree_of(&green);
    assert!(wow_ls::variables::types_of_tree(&tree).is_some());
}

#[test]
fn operators_give_types() {
    let env = types("local s = 1 + 2\nlocal b = 1 < 2\nlocal c = \"a\" .. \"b\"\nlocal o = 1 or \"x\"\nlocal n = -1\n");
    assert!(is(&env.lookup("s"), &ValueType::Number));
    assert!(is(&env.lookup("b"), &ValueType::Boolean));
    assert!(is(&env.lookup("c"), &ValueType::String));
    assert!(is(&env.lookup("o"), &ValueType::Union(vec![ValueType::Number, ValueType::String])));
    assert!(is(&env.lookup("n"), &ValueType::Number));
}

fn shape(n: &wow_ls::ast::Node) -> String {
    let mut s = format!("{:?}(", wow_ls::syntax::syntax::kind_from_raw(n.kind));
    for c in &n.children {
        match c {
            wow_ls::ast::Element::Node(m) => s.push_str(&shape(m)),
            wow_ls::ast::Element::Token(k, _) => s.push_str(&format!("{:?} ", wow_ls::syntax::syntax::kind_from_raw(*k))),
        }
    }
    s.push_str(") ");
    s
}

#[test]
fn table_constructor_fields() {
    let text = "local t = {a = 1, b = \"x\"}\n";
    let env = types(text);
    let mut g = Generator::new(text);
    let tree = tree_of(&g.process_all());
    let expected = table(vec![("a", ValueType::Number), ("b", ValueType::String)]);
    assert!(is(&env.lookup("t"), &expected), "{} {}", env.lookup("t").describe(), shape(&tree));
}

#[test]
fn function_expression() {
    let env = types("local g = function(a) end\n");
    let expected = ValueType::Function { params: vec![ValueType::Unknown], results: vec![] };
    assert!(is(&env.lookup("g"), &expected));
}

#[test]
fn for_loop_variable_is_scoped() {
    let env = types("for i = 1, 10 do\n  local j = i\nend\n");
    assert!(is(&env.lookup("i"), &ValueType::Unknown));
    assert!(is(&env.lookup("j"), &ValueType::Unknown));
}

#[test]
fn nested_blocks_return_to_the_outer_scope() {
    let env = types("do local a = 1 while x do local b = 'b' end end local c = 2 for i = 1, 3 do local d = i end");
    assert!(is(&env.lookup("a"), &ValueType::Unknown));
    assert!(is(&env.lookup("b"), &ValueType::Unknown));
    assert!(is(&env.lookup("d"), &ValueType::Unknown));
    assert!(is(&env.lookup("c"), &ValueType::Number));
    assert!(env.top_level_locals().iter().any(|(n, _)| n == "c"));
}

#[test]
fn types_only_for_a_block_root() {
    let mut b = rowan::GreenNodeBuilder::new();
    b.start_node(rowan::SyntaxKind(wow_ls::syntax::syntax::to_raw(wow_ls::syntax::syntax::SyntaxKind::Literal)));
    b.token(rowan::SyntaxKind(wow_ls::syntax::syntax::to_raw(wow_ls::syntax::syntax::SyntaxKind::Number)), "1");
    b.finish_node();
    let green = b.finish();
    assert!(get_types(&green, "test.lua").is_none());
    let tree = tree_of(&green);
    assert_eq!(tree.kind, wow_ls::syntax::syntax::to_raw(wow_ls::syntax::syntax::SyntaxKind::Literal));
    assert_eq!(tree.children.len(), 1);
}
