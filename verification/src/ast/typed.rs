//! Typed views of the nodes of a syntax tree: each borrows one node of its
//! kind, and finds its parts among the node's children, in order.
use vstd::prelude::*;
use crate::ast::{
    first_in_class, first_node_of_kind, first_operator, has_kind, has_token, nodes_in_class,
    nodes_of_kind, operator_kind, token_texts, Element, Node, NodeClass, Operator,
};
use crate::syntax::syntax::{spec_raw, to_raw, SyntaxKind};

verus! {

/// A typed view of a node: made from a node of the right kind, and giving the
/// node back.
pub trait AstNode<'a>: Sized {
    fn cast(node: &'a Node) -> Option<Self>;

    fn syntax(&self) -> &'a Node;
}

/// Whether `r` views the node `n`, or is `None` where `n` is.
pub open spec fn views_node<T: View<V = Node>>(r: Option<T>, n: Option<Node>) -> bool {
    match n {
        Some(m) => r matches Some(x) && x@ == m,
        None => r is None,
    }
}

/// Whether `r` views the nodes `s`, one for one.
pub open spec fn views_nodes<T: View<V = Node>>(r: Seq<T>, s: Seq<Node>) -> bool {
    &&& r.len() == s.len()
    &&& forall|i: int| 0 <= i < r.len() ==> #[trigger] r[i]@ == s[i]
}

/// The text of a node: the texts of its tokens, in order.
pub open spec fn node_text(n: Node) -> Seq<char>
    decreases n,
{
    elements_text(n.children@)
}

/// The texts of the tokens of a list of children, in order.
pub open spec fn elements_text(s: Seq<Element>) -> Seq<char>
    decreases s,
{
    if s.len() == 0 {
        Seq::empty()
    } else {
        let last = match s.last() {
            Element::Node(n) => node_text(n),
            Element::Token(_, t) => t@,
        };
        elements_text(s.drop_last()) + last
    }
}

/// The text of a node.
pub fn text_of(n: &Node) -> (r: String)
    ensures
        r@ == node_text(*n),
    decreases n,
{
    elements_text_of(&n.children)
}

fn elements_text_of(s: &Vec<Element>) -> (r: String)
    ensures
        r@ == elements_text(s@),
    decreases s,
{
    let mut r = String::new();
    let mut i: usize = 0;
    while i < s.len()
        invariant
            i <= s@.len(),
            r@ == elements_text(s@.take(i as int)),
        decreases s@.len() - i,
    {
        assert(s@.take(i + 1).drop_last() =~= s@.take(i as int));
        assert(s@.take(i + 1).last() == s@[i as int]);
        match &s[i] {
            Element::Node(n) => {
                r.append(text_of(n).as_str());
            },
            Element::Token(_, t) => {
                r.append(t.as_str());
            },
        }
        i = i + 1;
    }
    assert(s@.take(s@.len() as int) =~= s@);
    r
}

/// A function definition, global or local.
#[derive(Clone, Copy)]
pub struct FunctionDefinition<'a> {
    node: &'a Node,
}

impl<'a> View for FunctionDefinition<'a> {
    type V = Node;

    closed spec fn view(&self) -> Node {
        *self.node
    }
}

impl<'a> AstNode<'a> for FunctionDefinition<'a> {
    fn cast(node: &'a Node) -> (r: Option<Self>)
        ensures
            r is Some <==> node.kind == spec_raw(SyntaxKind::FunctionDefinition),
            r matches Some(x) ==> x@ == *node,
    {
        if node.kind == to_raw(SyntaxKind::FunctionDefinition) {
            Some(FunctionDefinition { node })
        } else {
            None
        }
    }

    fn syntax(&self) -> (r: &'a Node)
        ensures
            *r == self@,
    {
        self.node
    }
}

impl<'a> FunctionDefinition<'a> {
    /// Whether the definition is `local`: a `local` keyword is among its
    /// children.
    pub fn is_local(&self) -> (r: bool)
        ensures
            r == has_kind(self@.children@, spec_raw(SyntaxKind::LocalKeyword)),
    {
        self.node.has_kind(to_raw(SyntaxKind::LocalKeyword))
    }

    /// The name the function is defined under.
    pub fn identifier(&self) -> (r: Option<Identifier<'a>>)
        ensures
            views_node(r, first_node_of_kind(self@.children@, spec_raw(SyntaxKind::Identifier))),
    {
        match self.node.first_node_of_kind(to_raw(SyntaxKind::Identifier)) {
            Some(n) => Some(Identifier { node: n }),
            None => None,
        }
    }

    /// The parameter list.
    pub fn params(&self) -> (r: Option<ParameterList<'a>>)
        ensures
            views_node(r, first_node_of_kind(self@.children@, spec_raw(SyntaxKind::ParameterList))),
    {
        match self.node.first_node_of_kind(to_raw(SyntaxKind::ParameterList)) {
            Some(n) => Some(ParameterList { node: n }),
            None => None,
        }
    }

    /// The body.
    pub fn block(&self) -> (r: Option<Block<'a>>)
        ensures
            views_node(r, first_node_of_kind(self@.children@, spec_raw(SyntaxKind::Block))),
    {
        match self.node.first_node_of_kind(to_raw(SyntaxKind::Block)) {
            Some(n) => Some(Block { node: n }),
            None => None,
        }
    }
}

/// The parameters of a function definition.
#[derive(Clone, Copy)]
pub struct ParameterList<'a> {
    node: &'a Node,
}

impl<'a> View for ParameterList<'a> {
    type V = Node;

    closed spec fn view(&self) -> Node {
        *self.node
    }
}

impl<'a> AstNode<'a> for ParameterList<'a> {
    fn cast(node: &'a Node) -> (r: Option<Self>)
        ensures
            r is Some <==> node.kind == spec_raw(SyntaxKind::ParameterList),
            r matches Some(x) ==> x@ == *node,
    {
        if node.kind == to_raw(SyntaxKind::ParameterList) {
            Some(ParameterList { node })
        } else {
            None
        }
    }

    fn syntax(&self) -> (r: &'a Node)
        ensures
            *r == self@,
    {
        self.node
    }
}

impl<'a> ParameterList<'a> {
    /// The names of the parameters, in order.
    pub fn parameters(&self) -> (r: Vec<String>)
        ensures
            r@.len() == token_texts(self@.children@, spec_raw(SyntaxKind::Parameter)).len(),
            forall|i: int| 0 <= i < r@.len() ==> r@[i]@ == token_texts(self@.children@, spec_raw(SyntaxKind::Parameter))[i],
    {
        self.node.token_texts(to_raw(SyntaxKind::Parameter))
    }

    /// Whether the function takes `...`.
    pub fn ellipsis(&self) -> (r: bool)
        ensures
            r == has_token(self@.children@, spec_raw(SyntaxKind::ParameterVarArgs)),
    {
        self.node.has_token(to_raw(SyntaxKind::ParameterVarArgs))
    }
}

/// A name, a dotted or indexed path of names, or a call target.
#[derive(Clone, Copy)]
pub struct Identifier<'a> {
    node: &'a Node,
}

impl<'a> View for Identifier<'a> {
    type V = Node;

    closed spec fn view(&self) -> Node {
        *self.node
    }
}

impl<'a> AstNode<'a> for Identifier<'a> {
    fn cast(node: &'a Node) -> (r: Option<Self>)
        ensures
            r is Some <==> node.kind == spec_raw(SyntaxKind::Identifier),
            r matches Some(x) ==> x@ == *node,
    {
        if node.kind == to_raw(SyntaxKind::Identifier) {
            Some(Identifier { node })
        } else {
            None
        }
    }

    fn syntax(&self) -> (r: &'a Node)
        ensures
            *r == self@,
    {
        self.node
    }
}

impl<'a> Identifier<'a> {
    /// The names of the path, in order.
    pub fn names(&self) -> (r: Vec<String>)
        ensures
            r@.len() == token_texts(self@.children@, spec_raw(SyntaxKind::Name)).len(),
            forall|i: int| 0 <= i < r@.len() ==> r@[i]@ == token_texts(self@.children@, spec_raw(SyntaxKind::Name))[i],
    {
        self.node.token_texts(to_raw(SyntaxKind::Name))
    }

    /// Whether the path calls a method with `:`.
    pub fn is_call_to_self(&self) -> (r: bool)
        ensures
            r == has_token(self@.children@, spec_raw(SyntaxKind::Colon)),
    {
        self.node.has_token(to_raw(SyntaxKind::Colon))
    }

    /// Whether the path indexes with an expression in square brackets.
    pub fn is_indexed_expression(&self) -> (r: bool)
        ensures
            r == (nodes_of_kind(self@.children@, spec_raw(SyntaxKind::Expression)).len() > 0),
    {
        self.node.first_node_of_kind(to_raw(SyntaxKind::Expression)).is_some()
    }

    /// The first expression among the children.
    pub fn final_expression(&self) -> (r: Option<Expression<'a>>)
        ensures
            views_node(r, first_in_class(self@.children@, NodeClass::Expression)),
            r matches Some(e) ==> tagged(e),
    {
        first_expression(self.node)
    }
}

/// A block of statements.
#[derive(Clone, Copy)]
pub struct Block<'a> {
    node: &'a Node,
}

impl<'a> View for Block<'a> {
    type V = Node;

    closed spec fn view(&self) -> Node {
        *self.node
    }
}

impl<'a> AstNode<'a> for Block<'a> {
    fn cast(node: &'a Node) -> (r: Option<Self>)
        ensures
            r is Some <==> node.kind == spec_raw(SyntaxKind::Block),
            r matches Some(x) ==> x@ == *node,
    {
        if node.kind == to_raw(SyntaxKind::Block) {
            Some(Block { node })
        } else {
            None
        }
    }

    fn syntax(&self) -> (r: &'a Node)
        ensures
            *r == self@,
    {
        self.node
    }
}

impl<'a> Block<'a> {
    /// The statements of the block, in order.
    pub fn statements(&self) -> (r: Vec<Statement<'a>>)
        ensures
            views_nodes(r@, statement_nodes(self@.children@)),
            forall|i: int| 0 <= i < r@.len() ==> #[trigger] statement_tagged(r@[i]),
    {
        let mut r: Vec<Statement<'a>> = Vec::new();
        let mut i: usize = 0;
        let children = &self.node.children;
        while i < children.len()
            invariant
                i <= children@.len(),
                *children == self@.children,
                views_nodes(r@, statement_nodes(children@.take(i as int))),
                forall|j: int| 0 <= j < r@.len() ==> #[trigger] statement_tagged(r@[j]),
            decreases children@.len() - i,
        {
            assert(children@.take(i + 1).drop_last() =~= children@.take(i as int));
            match &children[i] {
                Element::Node(n) => {
                    match Statement::cast(n) {
                        Some(s) => {
                            r.push(s);
                        },
                        None => {},
                    }
                },
                Element::Token(_, _) => {},
            }
            i = i + 1;
        }
        assert(children@.take(children@.len() as int) =~= children@);
        r
    }
}

/// An assignment statement.
#[derive(Clone, Copy)]
pub struct Assign<'a> {
    node: &'a Node,
}

impl<'a> View for Assign<'a> {
    type V = Node;

    closed spec fn view(&self) -> Node {
        *self.node
    }
}

impl<'a> AstNode<'a> for Assign<'a> {
    fn cast(node: &'a Node) -> (r: Option<Self>)
        ensures
            r is Some <==> node.kind == spec_raw(SyntaxKind::AssignStatement),
            r matches Some(x) ==> x@ == *node,
    {
        if node.kind == to_raw(SyntaxKind::AssignStatement) {
            Some(Assign { node })
        } else {
            None
        }
    }

    fn syntax(&self) -> (r: &'a Node)
        ensures
            *r == self@,
    {
        self.node
    }
}

impl<'a> Assign<'a> {
    /// The targets.
    pub fn variable_list(&self) -> (r: Option<VariableList<'a>>)
        ensures
            views_node(r, first_node_of_kind(self@.children@, spec_raw(SyntaxKind::VariableList))),
    {
        match self.node.first_node_of_kind(to_raw(SyntaxKind::VariableList)) {
            Some(n) => Some(VariableList { node: n }),
            None => None,
        }
    }

    /// The values.
    pub fn expression_list(&self) -> (r: Option<ExpressionList<'a>>)
        ensures
            views_node(r, first_node_of_kind(self@.children@, spec_raw(SyntaxKind::ExpressionList))),
    {
        match self.node.first_node_of_kind(to_raw(SyntaxKind::ExpressionList)) {
            Some(n) => Some(ExpressionList { node: n }),
            None => None,
        }
    }
}

/// The targets of an assignment.
#[derive(Clone, Copy)]
pub struct VariableList<'a> {
    node: &'a Node,
}

impl<'a> View for VariableList<'a> {
    type V = Node;

    closed spec fn view(&self) -> Node {
        *self.node
    }
}

impl<'a> AstNode<'a> for VariableList<'a> {
    fn cast(node: &'a Node) -> (r: Option<Self>)
        ensures
            r is Some <==> node.kind == spec_raw(SyntaxKind::VariableList),
            r matches Some(x) ==> x@ == *node,
    {
        if node.kind == to_raw(SyntaxKind::VariableList) {
            Some(VariableList { node })
        } else {
            None
        }
    }

    fn syntax(&self) -> (r: &'a Node)
        ensures
            *r == self@,
    {
        self.node
    }
}

impl<'a> VariableList<'a> {
    /// The targets, in order.
    pub fn identifiers(&self) -> (r: Vec<Identifier<'a>>)
        ensures
            views_nodes(r@, nodes_of_kind(self@.children@, spec_raw(SyntaxKind::Identifier))),
    {
        let all = self.node.nodes_of_kind(to_raw(SyntaxKind::Identifier));
        let mut r: Vec<Identifier<'a>> = Vec::new();
        let mut i: usize = 0;
        while i < all.len()
            invariant
                i <= all@.len(),
                all@.len() == nodes_of_kind(self@.children@, spec_raw(SyntaxKind::Identifier)).len(),
                forall|j: int| 0 <= j < all@.len() ==> *all@[j] == nodes_of_kind(self@.children@, spec_raw(SyntaxKind::Identifier))[j],
                r@.len() == i,
                forall|j: int| 0 <= j < i ==> #[trigger] r@[j]@ == *all@[j],
            decreases all@.len() - i,
        {
            r.push(Identifier { node: all[i] });
            i = i + 1;
        }
        r
    }
}

/// A list of expressions.
#[derive(Clone, Copy)]
pub struct ExpressionList<'a> {
    node: &'a Node,
}

impl<'a> View for ExpressionList<'a> {
    type V = Node;

    closed spec fn view(&self) -> Node {
        *self.node
    }
}

impl<'a> AstNode<'a> for ExpressionList<'a> {
    fn cast(node: &'a Node) -> (r: Option<Self>)
        ensures
            r is Some <==> node.kind == spec_raw(SyntaxKind::ExpressionList),
            r matches Some(x) ==> x@ == *node,
    {
        if node.kind == to_raw(SyntaxKind::ExpressionList) {
            Some(ExpressionList { node })
        } else {
            None
        }
    }

    fn syntax(&self) -> (r: &'a Node)
        ensures
            *r == self@,
    {
        self.node
    }
}

impl<'a> ExpressionList<'a> {
    /// The expressions, in order.
    pub fn expressions(&self) -> (r: Vec<Expression<'a>>)
        ensures
            views_nodes(r@, nodes_in_class(self@.children@, NodeClass::Expression)),
            forall|i: int| 0 <= i < r@.len() ==> #[trigger] tagged(r@[i]),
    {
        expressions_of(self.node)
    }
}

/// A literal value.
#[derive(Clone, Copy)]
pub struct Literal<'a> {
    node: &'a Node,
}

impl<'a> View for Literal<'a> {
    type V = Node;

    closed spec fn view(&self) -> Node {
        *self.node
    }
}

impl<'a> AstNode<'a> for Literal<'a> {
    fn cast(node: &'a Node) -> (r: Option<Self>)
        ensures
            r is Some <==> node.kind == spec_raw(SyntaxKind::Literal),
            r matches Some(x) ==> x@ == *node,
    {
        if node.kind == to_raw(SyntaxKind::Literal) {
            Some(Literal { node })
        } else {
            None
        }
    }

    fn syntax(&self) -> (r: &'a Node)
        ensures
            *r == self@,
    {
        self.node
    }
}

impl<'a> Literal<'a> {
    /// The literal's text, when it is a string.
    pub fn get_string(&self) -> (r: Option<String>)
        ensures
            r is Some <==> (has_kind(self@.children@, spec_raw(SyntaxKind::String))),
            r matches Some(s) ==> s@ == node_text(self@),
    {
        if self.node.has_kind(to_raw(SyntaxKind::String)) {
            Some(text_of(self.node))
        } else {
            None
        }
    }

    /// The literal's text, when it is a number.
    pub fn get_number(&self) -> (r: Option<String>)
        ensures
            r is Some <==> (has_kind(self@.children@, spec_raw(SyntaxKind::Number))),
            r matches Some(s) ==> s@ == node_text(self@),
    {
        if self.node.has_kind(to_raw(SyntaxKind::Number)) {
            Some(text_of(self.node))
        } else {
            None
        }
    }

    /// The literal's text, when it is `true` or `false`.
    pub fn get_bool(&self) -> (r: Option<String>)
        ensures
            r is Some <==> (has_kind(self@.children@, spec_raw(SyntaxKind::TrueKeyword)) || has_kind(self@.children@, spec_raw(SyntaxKind::FalseKeyword))),
            r matches Some(s) ==> s@ == node_text(self@),
    {
        if self.node.has_kind(to_raw(SyntaxKind::TrueKeyword)) || self.node.has_kind(to_raw(SyntaxKind::FalseKeyword)) {
            Some(text_of(self.node))
        } else {
            None
        }
    }

    /// Whether the literal is `nil`.
    pub fn is_nil(&self) -> (r: bool)
        ensures
            r == has_kind(self@.children@, spec_raw(SyntaxKind::NilKeyword)),
    {
        self.node.has_kind(to_raw(SyntaxKind::NilKeyword))
    }
}

/// An expression with a unary operator. It is made from a node of the
/// expression-list kind.
#[derive(Clone, Copy)]
pub struct UnaryExpression<'a> {
    node: &'a Node,
}

impl<'a> View for UnaryExpression<'a> {
    type V = Node;

    closed spec fn view(&self) -> Node {
        *self.node
    }
}

impl<'a> AstNode<'a> for UnaryExpression<'a> {
    fn cast(node: &'a Node) -> (r: Option<Self>)
        ensures
            r is Some <==> node.kind == spec_raw(SyntaxKind::ExpressionList),
            r matches Some(x) ==> x@ == *node,
    {
        if node.kind == to_raw(SyntaxKind::ExpressionList) {
            Some(UnaryExpression { node })
        } else {
            None
        }
    }

    fn syntax(&self) -> (r: &'a Node)
        ensures
            *r == self@,
    {
        self.node
    }
}

impl<'a> UnaryExpression<'a> {
    /// The operator: that of the first child that gives a unary one.
    pub fn kind(&self) -> (r: Operator)
        ensures
            r == first_operator(self@.children@, true),
    {
        operator_kind(self.node, true)
    }

    /// The operands, in order.
    pub fn get_terms(&self) -> (r: Vec<Expression<'a>>)
        ensures
            views_nodes(r@, nodes_in_class(self@.children@, NodeClass::Expression)),
            forall|i: int| 0 <= i < r@.len() ==> #[trigger] tagged(r@[i]),
    {
        expressions_of(self.node)
    }
}

/// An expression with a binary operator. It is made from a node of the
/// expression-list kind.
#[derive(Clone, Copy)]
pub struct BinaryExpression<'a> {
    node: &'a Node,
}

impl<'a> View for BinaryExpression<'a> {
    type V = Node;

    closed spec fn view(&self) -> Node {
        *self.node
    }
}

impl<'a> AstNode<'a> for BinaryExpression<'a> {
    fn cast(node: &'a Node) -> (r: Option<Self>)
        ensures
            r is Some <==> node.kind == spec_raw(SyntaxKind::ExpressionList),
            r matches Some(x) ==> x@ == *node,
    {
        if node.kind == to_raw(SyntaxKind::ExpressionList) {
            Some(BinaryExpression { node })
        } else {
            None
        }
    }

    fn syntax(&self) -> (r: &'a Node)
        ensures
            *r == self@,
    {
        self.node
    }
}

impl<'a> BinaryExpression<'a> {
    /// The operator: that of the first child that gives a binary one.
    pub fn kind(&self) -> (r: Operator)
        ensures
            r == first_operator(self@.children@, false),
    {
        operator_kind(self.node, false)
    }
}

/// An expression in brackets, or a chain of parts.
#[derive(Clone, Copy)]
pub struct GroupedExpression<'a> {
    node: &'a Node,
}

impl<'a> View for GroupedExpression<'a> {
    type V = Node;

    closed spec fn view(&self) -> Node {
        *self.node
    }
}

impl<'a> AstNode<'a> for GroupedExpression<'a> {
    fn cast(node: &'a Node) -> (r: Option<Self>)
        ensures
            r is Some <==> node.kind == spec_raw(SyntaxKind::GroupedExpression),
            r matches Some(x) ==> x@ == *node,
    {
        if node.kind == to_raw(SyntaxKind::GroupedExpression) {
            Some(GroupedExpression { node })
        } else {
            None
        }
    }

    fn syntax(&self) -> (r: &'a Node)
        ensures
            *r == self@,
    {
        self.node
    }
}

impl<'a> GroupedExpression<'a> {
    /// The first expression among the children.
    pub fn get_expression(&self) -> (r: Option<Expression<'a>>)
        ensures
            views_node(r, first_in_class(self@.children@, NodeClass::Expression)),
            r matches Some(e) ==> tagged(e),
    {
        first_expression(self.node)
    }

    /// The first expression among the children.
    pub fn get_term(&self) -> (r: Option<Expression<'a>>)
        ensures
            views_node(r, first_in_class(self@.children@, NodeClass::Expression)),
            r matches Some(e) ==> tagged(e),
    {
        first_expression(self.node)
    }
}

/// A `local` assignment statement.
#[derive(Clone, Copy)]
pub struct LocalAssign<'a> {
    node: &'a Node,
}

impl<'a> View for LocalAssign<'a> {
    type V = Node;

    closed spec fn view(&self) -> Node {
        *self.node
    }
}

impl<'a> AstNode<'a> for LocalAssign<'a> {
    fn cast(node: &'a Node) -> (r: Option<Self>)
        ensures
            r is Some <==> node.kind == spec_raw(SyntaxKind::LocalAssignStatement),
            r matches Some(x) ==> x@ == *node,
    {
        if node.kind == to_raw(SyntaxKind::LocalAssignStatement) {
            Some(LocalAssign { node })
        } else {
            None
        }
    }

    fn syntax(&self) -> (r: &'a Node)
        ensures
            *r == self@,
    {
        self.node
    }
}

impl<'a> LocalAssign<'a> {
    /// The names.
    pub fn name_list(&self) -> (r: Option<NameList<'a>>)
        ensures
            views_node(r, first_node_of_kind(self@.children@, spec_raw(SyntaxKind::NameList))),
    {
        match self.node.first_node_of_kind(to_raw(SyntaxKind::NameList)) {
            Some(n) => Some(NameList { node: n }),
            None => None,
        }
    }

    /// The values.
    pub fn expression_list(&self) -> (r: Option<ExpressionList<'a>>)
        ensures
            views_node(r, first_node_of_kind(self@.children@, spec_raw(SyntaxKind::ExpressionList))),
    {
        match self.node.first_node_of_kind(to_raw(SyntaxKind::ExpressionList)) {
            Some(n) => Some(ExpressionList { node: n }),
            None => None,
        }
    }
}

/// The names of a `local` assignment or a `for ... in` loop.
#[derive(Clone, Copy)]
pub struct NameList<'a> {
    node: &'a Node,
}

impl<'a> View for NameList<'a> {
    type V = Node;

    closed spec fn view(&self) -> Node {
        *self.node
    }
}

impl<'a> AstNode<'a> for NameList<'a> {
    fn cast(node: &'a Node) -> (r: Option<Self>)
        ensures
            r is Some <==> node.kind == spec_raw(SyntaxKind::NameList),
            r matches Some(x) ==> x@ == *node,
    {
        if node.kind == to_raw(SyntaxKind::NameList) {
            Some(NameList { node })
        } else {
            None
        }
    }

    fn syntax(&self) -> (r: &'a Node)
        ensures
            *r == self@,
    {
        self.node
    }
}

impl<'a> NameList<'a> {
    /// The names, in order.
    pub fn names(&self) -> (r: Vec<String>)
        ensures
            r@.len() == token_texts(self@.children@, spec_raw(SyntaxKind::Name)).len(),
            forall|i: int| 0 <= i < r@.len() ==> r@[i]@ == token_texts(self@.children@, spec_raw(SyntaxKind::Name))[i],
    {
        self.node.token_texts(to_raw(SyntaxKind::Name))
    }
}

/// A function call.
#[derive(Clone, Copy)]
pub struct FunctionCall<'a> {
    node: &'a Node,
}

impl<'a> View for FunctionCall<'a> {
    type V = Node;

    closed spec fn view(&self) -> Node {
        *self.node
    }
}

impl<'a> AstNode<'a> for FunctionCall<'a> {
    fn cast(node: &'a Node) -> (r: Option<Self>)
        ensures
            r is Some <==> node.kind == spec_raw(SyntaxKind::FunctionCall),
            r matches Some(x) ==> x@ == *node,
    {
        if node.kind == to_raw(SyntaxKind::FunctionCall) {
            Some(FunctionCall { node })
        } else {
            None
        }
    }

    fn syntax(&self) -> (r: &'a Node)
        ensures
            *r == self@,
    {
        self.node
    }
}

impl<'a> FunctionCall<'a> {
    /// The function called.
    pub fn identifier(&self) -> (r: Option<Identifier<'a>>)
        ensures
            views_node(r, first_node_of_kind(self@.children@, spec_raw(SyntaxKind::Identifier))),
    {
        match self.node.first_node_of_kind(to_raw(SyntaxKind::Identifier)) {
            Some(n) => Some(Identifier { node: n }),
            None => None,
        }
    }

    /// The arguments.
    pub fn arguments(&self) -> (r: Option<ExpressionList<'a>>)
        ensures
            views_node(r, first_node_of_kind(self@.children@, spec_raw(SyntaxKind::ExpressionList))),
    {
        match self.node.first_node_of_kind(to_raw(SyntaxKind::ExpressionList)) {
            Some(n) => Some(ExpressionList { node: n }),
            None => None,
        }
    }
}

/// A `do ... end` block.
#[derive(Clone, Copy)]
pub struct DoGroup<'a> {
    node: &'a Node,
}

impl<'a> View for DoGroup<'a> {
    type V = Node;

    closed spec fn view(&self) -> Node {
        *self.node
    }
}

impl<'a> AstNode<'a> for DoGroup<'a> {
    fn cast(node: &'a Node) -> (r: Option<Self>)
        ensures
            r is Some <==> node.kind == spec_raw(SyntaxKind::DoBlock),
            r matches Some(x) ==> x@ == *node,
    {
        if node.kind == to_raw(SyntaxKind::DoBlock) {
            Some(DoGroup { node })
        } else {
            None
        }
    }

    fn syntax(&self) -> (r: &'a Node)
        ensures
            *r == self@,
    {
        self.node
    }
}

impl<'a> DoGroup<'a> {
    /// The body.
    pub fn block(&self) -> (r: Option<Block<'a>>)
        ensures
            views_node(r, first_node_of_kind(self@.children@, spec_raw(SyntaxKind::Block))),
    {
        match self.node.first_node_of_kind(to_raw(SyntaxKind::Block)) {
            Some(n) => Some(Block { node: n }),
            None => None,
        }
    }
}

/// A `while` loop.
#[derive(Clone, Copy)]
pub struct WhileLoop<'a> {
    node: &'a Node,
}

impl<'a> View for WhileLoop<'a> {
    type V = Node;

    closed spec fn view(&self) -> Node {
        *self.node
    }
}

impl<'a> AstNode<'a> for WhileLoop<'a> {
    fn cast(node: &'a Node) -> (r: Option<Self>)
        ensures
            r is Some <==> node.kind == spec_raw(SyntaxKind::WhileLoop),
            r matches Some(x) ==> x@ == *node,
    {
        if node.kind == to_raw(SyntaxKind::WhileLoop) {
            Some(WhileLoop { node })
        } else {
            None
        }
    }

    fn syntax(&self) -> (r: &'a Node)
        ensures
            *r == self@,
    {
        self.node
    }
}

impl<'a> WhileLoop<'a> {
    /// The condition.
    pub fn condition(&self) -> (r: Option<Expression<'a>>)
        ensures
            views_node(r, first_in_class(self@.children@, NodeClass::Expression)),
            r matches Some(e) ==> tagged(e),
    {
        first_expression(self.node)
    }

    /// The body.
    pub fn block(&self) -> (r: Option<Block<'a>>)
        ensures
            views_node(r, first_node_of_kind(self@.children@, spec_raw(SyntaxKind::Block))),
    {
        match self.node.first_node_of_kind(to_raw(SyntaxKind::Block)) {
            Some(n) => Some(Block { node: n }),
            None => None,
        }
    }
}

/// A `repeat ... until` loop.
#[derive(Clone, Copy)]
pub struct RepeatUntilLoop<'a> {
    node: &'a Node,
}

impl<'a> View for RepeatUntilLoop<'a> {
    type V = Node;

    closed spec fn view(&self) -> Node {
        *self.node
    }
}

impl<'a> AstNode<'a> for RepeatUntilLoop<'a> {
    fn cast(node: &'a Node) -> (r: Option<Self>)
        ensures
            r is Some <==> node.kind == spec_raw(SyntaxKind::RepeatUntilLoop),
            r matches Some(x) ==> x@ == *node,
    {
        if node.kind == to_raw(SyntaxKind::RepeatUntilLoop) {
            Some(RepeatUntilLoop { node })
        } else {
            None
        }
    }

    fn syntax(&self) -> (r: &'a Node)
        ensures
            *r == self@,
    {
        self.node
    }
}

impl<'a> RepeatUntilLoop<'a> {
    /// The condition.
    pub fn condition(&self) -> (r: Option<Expression<'a>>)
        ensures
            views_node(r, first_in_class(self@.children@, NodeClass::Expression)),
            r matches Some(e) ==> tagged(e),
    {
        first_expression(self.node)
    }

    /// The body.
    pub fn block(&self) -> (r: Option<Block<'a>>)
        ensures
            views_node(r, first_node_of_kind(self@.children@, spec_raw(SyntaxKind::Block))),
    {
        match self.node.first_node_of_kind(to_raw(SyntaxKind::Block)) {
            Some(n) => Some(Block { node: n }),
            None => None,
        }
    }
}

/// A counting `for` loop.
#[derive(Clone, Copy)]
pub struct ForCountLoop<'a> {
    node: &'a Node,
}

impl<'a> View for ForCountLoop<'a> {
    type V = Node;

    closed spec fn view(&self) -> Node {
        *self.node
    }
}

impl<'a> AstNode<'a> for ForCountLoop<'a> {
    fn cast(node: &'a Node) -> (r: Option<Self>)
        ensures
            r is Some <==> node.kind == spec_raw(SyntaxKind::ForCountLoop),
            r matches Some(x) ==> x@ == *node,
    {
        if node.kind == to_raw(SyntaxKind::ForCountLoop) {
            Some(ForCountLoop { node })
        } else {
            None
        }
    }

    fn syntax(&self) -> (r: &'a Node)
        ensures
            *r == self@,
    {
        self.node
    }
}

impl<'a> ForCountLoop<'a> {
    /// The name of the counter: the first name among the children.
    pub fn name(&self) -> (r: Option<String>)
        ensures
            r is Some <==> token_texts(self@.children@, spec_raw(SyntaxKind::Name)).len() > 0,
            r matches Some(s) ==> s@ == token_texts(self@.children@, spec_raw(SyntaxKind::Name))[0],
    {
        let all = self.node.token_texts(to_raw(SyntaxKind::Name));
        if all.len() > 0 {
            Some(all[0].clone())
        } else {
            None
        }
    }

    /// The start, limit and step.
    pub fn expression_list(&self) -> (r: Option<ExpressionList<'a>>)
        ensures
            views_node(r, first_node_of_kind(self@.children@, spec_raw(SyntaxKind::ExpressionList))),
    {
        match self.node.first_node_of_kind(to_raw(SyntaxKind::ExpressionList)) {
            Some(n) => Some(ExpressionList { node: n }),
            None => None,
        }
    }

    /// The body.
    pub fn block(&self) -> (r: Option<Block<'a>>)
        ensures
            views_node(r, first_node_of_kind(self@.children@, spec_raw(SyntaxKind::Block))),
    {
        match self.node.first_node_of_kind(to_raw(SyntaxKind::Block)) {
            Some(n) => Some(Block { node: n }),
            None => None,
        }
    }
}

/// A `for ... in` loop.
#[derive(Clone, Copy)]
pub struct ForInLoop<'a> {
    node: &'a Node,
}

impl<'a> View for ForInLoop<'a> {
    type V = Node;

    closed spec fn view(&self) -> Node {
        *self.node
    }
}

impl<'a> AstNode<'a> for ForInLoop<'a> {
    fn cast(node: &'a Node) -> (r: Option<Self>)
        ensures
            r is Some <==> node.kind == spec_raw(SyntaxKind::ForInLoop),
            r matches Some(x) ==> x@ == *node,
    {
        if node.kind == to_raw(SyntaxKind::ForInLoop) {
            Some(ForInLoop { node })
        } else {
            None
        }
    }

    fn syntax(&self) -> (r: &'a Node)
        ensures
            *r == self@,
    {
        self.node
    }
}

impl<'a> ForInLoop<'a> {
    /// The loop's names.
    pub fn name_list(&self) -> (r: Option<NameList<'a>>)
        ensures
            views_node(r, first_node_of_kind(self@.children@, spec_raw(SyntaxKind::NameList))),
    {
        match self.node.first_node_of_kind(to_raw(SyntaxKind::NameList)) {
            Some(n) => Some(NameList { node: n }),
            None => None,
        }
    }

    /// The iterated expressions.
    pub fn expression_list(&self) -> (r: Option<ExpressionList<'a>>)
        ensures
            views_node(r, first_node_of_kind(self@.children@, spec_raw(SyntaxKind::ExpressionList))),
    {
        match self.node.first_node_of_kind(to_raw(SyntaxKind::ExpressionList)) {
            Some(n) => Some(ExpressionList { node: n }),
            None => None,
        }
    }

    /// The body.
    pub fn block(&self) -> (r: Option<Block<'a>>)
        ensures
            views_node(r, first_node_of_kind(self@.children@, spec_raw(SyntaxKind::Block))),
    {
        match self.node.first_node_of_kind(to_raw(SyntaxKind::Block)) {
            Some(n) => Some(Block { node: n }),
            None => None,
        }
    }
}

/// An `if` statement with its branches.
#[derive(Clone, Copy)]
pub struct IfChain<'a> {
    node: &'a Node,
}

impl<'a> View for IfChain<'a> {
    type V = Node;

    closed spec fn view(&self) -> Node {
        *self.node
    }
}

impl<'a> AstNode<'a> for IfChain<'a> {
    fn cast(node: &'a Node) -> (r: Option<Self>)
        ensures
            r is Some <==> node.kind == spec_raw(SyntaxKind::IfChain),
            r matches Some(x) ==> x@ == *node,
    {
        if node.kind == to_raw(SyntaxKind::IfChain) {
            Some(IfChain { node })
        } else {
            None
        }
    }

    fn syntax(&self) -> (r: &'a Node)
        ensures
            *r == self@,
    {
        self.node
    }
}

impl<'a> IfChain<'a> {
    /// The `if` and `elseif` branches, in order.
    pub fn if_branches(&self) -> (r: Vec<IfBranch<'a>>)
        ensures
            views_nodes(r@, nodes_of_kind(self@.children@, spec_raw(SyntaxKind::IfBranch))),
    {
        let all = self.node.nodes_of_kind(to_raw(SyntaxKind::IfBranch));
        let mut r: Vec<IfBranch<'a>> = Vec::new();
        let mut i: usize = 0;
        while i < all.len()
            invariant
                i <= all@.len(),
                all@.len() == nodes_of_kind(self@.children@, spec_raw(SyntaxKind::IfBranch)).len(),
                forall|j: int| 0 <= j < all@.len() ==> *all@[j] == nodes_of_kind(self@.children@, spec_raw(SyntaxKind::IfBranch))[j],
                r@.len() == i,
                forall|j: int| 0 <= j < i ==> #[trigger] r@[j]@ == *all@[j],
            decreases all@.len() - i,
        {
            r.push(IfBranch { node: all[i] });
            i = i + 1;
        }
        r
    }

    /// The `else` branch.
    pub fn else_branch(&self) -> (r: Option<ElseBranch<'a>>)
        ensures
            views_node(r, first_node_of_kind(self@.children@, spec_raw(SyntaxKind::ElseBranch))),
    {
        match self.node.first_node_of_kind(to_raw(SyntaxKind::ElseBranch)) {
            Some(n) => Some(ElseBranch { node: n }),
            None => None,
        }
    }
}

/// An `if` or `elseif` branch.
#[derive(Clone, Copy)]
pub struct IfBranch<'a> {
    node: &'a Node,
}

impl<'a> View for IfBranch<'a> {
    type V = Node;

    closed spec fn view(&self) -> Node {
        *self.node
    }
}

impl<'a> AstNode<'a> for IfBranch<'a> {
    fn cast(node: &'a Node) -> (r: Option<Self>)
        ensures
            r is Some <==> node.kind == spec_raw(SyntaxKind::IfBranch),
            r matches Some(x) ==> x@ == *node,
    {
        if node.kind == to_raw(SyntaxKind::IfBranch) {
            Some(IfBranch { node })
        } else {
            None
        }
    }

    fn syntax(&self) -> (r: &'a Node)
        ensures
            *r == self@,
    {
        self.node
    }
}

impl<'a> IfBranch<'a> {
    /// The condition.
    pub fn expression(&self) -> (r: Option<Expression<'a>>)
        ensures
            views_node(r, first_in_class(self@.children@, NodeClass::Expression)),
            r matches Some(e) ==> tagged(e),
    {
        first_expression(self.node)
    }

    /// The body.
    pub fn block(&self) -> (r: Option<Block<'a>>)
        ensures
            views_node(r, first_node_of_kind(self@.children@, spec_raw(SyntaxKind::Block))),
    {
        match self.node.first_node_of_kind(to_raw(SyntaxKind::Block)) {
            Some(n) => Some(Block { node: n }),
            None => None,
        }
    }
}

/// The `else` branch of an `if` statement.
#[derive(Clone, Copy)]
pub struct ElseBranch<'a> {
    node: &'a Node,
}

impl<'a> View for ElseBranch<'a> {
    type V = Node;

    closed spec fn view(&self) -> Node {
        *self.node
    }
}

impl<'a> AstNode<'a> for ElseBranch<'a> {
    fn cast(node: &'a Node) -> (r: Option<Self>)
        ensures
            r is Some <==> node.kind == spec_raw(SyntaxKind::ElseBranch),
            r matches Some(x) ==> x@ == *node,
    {
        if node.kind == to_raw(SyntaxKind::ElseBranch) {
            Some(ElseBranch { node })
        } else {
            None
        }
    }

    fn syntax(&self) -> (r: &'a Node)
        ensures
            *r == self@,
    {
        self.node
    }
}

impl<'a> ElseBranch<'a> {
    /// The first expression among the children.
    pub fn expression(&self) -> (r: Option<Expression<'a>>)
        ensures
            views_node(r, first_in_class(self@.children@, NodeClass::Expression)),
            r matches Some(e) ==> tagged(e),
    {
        first_expression(self.node)
    }

    /// The body.
    pub fn block(&self) -> (r: Option<Block<'a>>)
        ensures
            views_node(r, first_node_of_kind(self@.children@, spec_raw(SyntaxKind::Block))),
    {
        match self.node.first_node_of_kind(to_raw(SyntaxKind::Block)) {
            Some(n) => Some(Block { node: n }),
            None => None,
        }
    }
}

/// A table constructor.
#[derive(Clone, Copy)]
pub struct TableConstructor<'a> {
    node: &'a Node,
}

impl<'a> View for TableConstructor<'a> {
    type V = Node;

    closed spec fn view(&self) -> Node {
        *self.node
    }
}

impl<'a> AstNode<'a> for TableConstructor<'a> {
    fn cast(node: &'a Node) -> (r: Option<Self>)
        ensures
            r is Some <==> node.kind == spec_raw(SyntaxKind::TableConstructor),
            r matches Some(x) ==> x@ == *node,
    {
        if node.kind == to_raw(SyntaxKind::TableConstructor) {
            Some(TableConstructor { node })
        } else {
            None
        }
    }

    fn syntax(&self) -> (r: &'a Node)
        ensures
            *r == self@,
    {
        self.node
    }
}

impl<'a> TableConstructor<'a> {
    /// The listed values.
    pub fn expression_list(&self) -> (r: Option<ExpressionList<'a>>)
        ensures
            views_node(r, first_node_of_kind(self@.children@, spec_raw(SyntaxKind::ExpressionList))),
    {
        match self.node.first_node_of_kind(to_raw(SyntaxKind::ExpressionList)) {
            Some(n) => Some(ExpressionList { node: n }),
            None => None,
        }
    }
}

/// A statement of a block. The `=` token's kind stands where an assignment
/// statement's node kind would be, so no node of the generator's trees is
/// taken as an assignment here.
#[derive(Clone, Copy)]
pub enum Statement<'a> {
    Assign(Assign<'a>),
    LocalAssign(LocalAssign<'a>),
    FunctionCall(FunctionCall<'a>),
    Do(DoGroup<'a>),
    While(WhileLoop<'a>),
    Repeat(RepeatUntilLoop<'a>),
    If(IfChain<'a>),
    ForCountLoop(ForCountLoop<'a>),
    ForInLoop(ForInLoop<'a>),
    FunctionDefinition(FunctionDefinition<'a>),
}

/// The node kinds that `Statement::cast` accepts.
pub open spec fn is_block_statement_kind(k: u16) -> bool {
    k == spec_raw(SyntaxKind::Assign)
        || k == spec_raw(SyntaxKind::LocalAssignStatement)
        || k == spec_raw(SyntaxKind::FunctionCall)
        || k == spec_raw(SyntaxKind::DoBlock)
        || k == spec_raw(SyntaxKind::WhileLoop)
        || k == spec_raw(SyntaxKind::RepeatUntilLoop)
        || k == spec_raw(SyntaxKind::IfChain)
        || k == spec_raw(SyntaxKind::ForCountLoop)
        || k == spec_raw(SyntaxKind::ForInLoop)
        || k == spec_raw(SyntaxKind::FunctionDefinition)
}

/// The raw kind that each variant is made from.
pub open spec fn statement_tagged_kind(x: Statement) -> u16 {
    match x {
        Statement::Assign(_) => spec_raw(SyntaxKind::Assign),
        Statement::LocalAssign(_) => spec_raw(SyntaxKind::LocalAssignStatement),
        Statement::FunctionCall(_) => spec_raw(SyntaxKind::FunctionCall),
        Statement::Do(_) => spec_raw(SyntaxKind::DoBlock),
        Statement::While(_) => spec_raw(SyntaxKind::WhileLoop),
        Statement::Repeat(_) => spec_raw(SyntaxKind::RepeatUntilLoop),
        Statement::If(_) => spec_raw(SyntaxKind::IfChain),
        Statement::ForCountLoop(_) => spec_raw(SyntaxKind::ForCountLoop),
        Statement::ForInLoop(_) => spec_raw(SyntaxKind::ForInLoop),
        Statement::FunctionDefinition(_) => spec_raw(SyntaxKind::FunctionDefinition),
    }
}

impl<'a> View for Statement<'a> {
    type V = Node;

    closed spec fn view(&self) -> Node {
        match self {
            Statement::Assign(x) => *x.node,
            Statement::LocalAssign(x) => *x.node,
            Statement::FunctionCall(x) => *x.node,
            Statement::Do(x) => *x.node,
            Statement::While(x) => *x.node,
            Statement::Repeat(x) => *x.node,
            Statement::If(x) => *x.node,
            Statement::ForCountLoop(x) => *x.node,
            Statement::ForInLoop(x) => *x.node,
            Statement::FunctionDefinition(x) => *x.node,
        }
    }
}

/// The variant of `x` is the one its node's kind gives.
pub open spec fn statement_tagged(x: Statement) -> bool {
    statement_tagged_kind(x) == x@.kind
}

impl<'a> AstNode<'a> for Statement<'a> {
    fn cast(node: &'a Node) -> (r: Option<Self>)
        ensures
            r is Some <==> is_block_statement_kind(node.kind),
            r matches Some(x) ==> x@ == *node && statement_tagged(x),
    {
        if node.kind == to_raw(SyntaxKind::Assign) {
            Some(Statement::Assign(Assign { node }))
        } else if node.kind == to_raw(SyntaxKind::LocalAssignStatement) {
            Some(Statement::LocalAssign(LocalAssign { node }))
        } else if node.kind == to_raw(SyntaxKind::FunctionCall) {
            Some(Statement::FunctionCall(FunctionCall { node }))
        } else if node.kind == to_raw(SyntaxKind::DoBlock) {
            Some(Statement::Do(DoGroup { node }))
        } else if node.kind == to_raw(SyntaxKind::WhileLoop) {
            Some(Statement::While(WhileLoop { node }))
        } else if node.kind == to_raw(SyntaxKind::RepeatUntilLoop) {
            Some(Statement::Repeat(RepeatUntilLoop { node }))
        } else if node.kind == to_raw(SyntaxKind::IfChain) {
            Some(Statement::If(IfChain { node }))
        } else if node.kind == to_raw(SyntaxKind::ForCountLoop) {
            Some(Statement::ForCountLoop(ForCountLoop { node }))
        } else if node.kind == to_raw(SyntaxKind::ForInLoop) {
            Some(Statement::ForInLoop(ForInLoop { node }))
        } else if node.kind == to_raw(SyntaxKind::FunctionDefinition) {
            Some(Statement::FunctionDefinition(FunctionDefinition { node }))
        } else {
            None
        }
    }

    fn syntax(&self) -> (r: &'a Node)
        ensures
            *r == self@,
    {
        match self {
            Statement::Assign(x) => x.node,
            Statement::LocalAssign(x) => x.node,
            Statement::FunctionCall(x) => x.node,
            Statement::Do(x) => x.node,
            Statement::While(x) => x.node,
            Statement::Repeat(x) => x.node,
            Statement::If(x) => x.node,
            Statement::ForCountLoop(x) => x.node,
            Statement::ForInLoop(x) => x.node,
            Statement::FunctionDefinition(x) => x.node,
        }
    }
}

/// An expression.
#[derive(Clone, Copy)]
pub enum Expression<'a> {
    UnaryExpression(UnaryExpression<'a>),
    BinaryExpression(BinaryExpression<'a>),
    GroupedExpression(GroupedExpression<'a>),
    Identifier(Identifier<'a>),
    Literal(Literal<'a>),
    Function(FunctionDefinition<'a>),
    TableConstructor(TableConstructor<'a>),
}

/// The node kinds that `Expression::cast` accepts.
pub open spec fn is_typed_expression_kind(k: u16) -> bool {
    k == spec_raw(SyntaxKind::UnaryExpression)
        || k == spec_raw(SyntaxKind::BinaryExpression)
        || k == spec_raw(SyntaxKind::GroupedExpression)
        || k == spec_raw(SyntaxKind::Identifier)
        || k == spec_raw(SyntaxKind::Literal)
        || k == spec_raw(SyntaxKind::FunctionDefinition)
        || k == spec_raw(SyntaxKind::TableConstructor)
}

/// The raw kind that each variant is made from.
pub open spec fn tagged_kind(x: Expression) -> u16 {
    match x {
        Expression::UnaryExpression(_) => spec_raw(SyntaxKind::UnaryExpression),
        Expression::BinaryExpression(_) => spec_raw(SyntaxKind::BinaryExpression),
        Expression::GroupedExpression(_) => spec_raw(SyntaxKind::GroupedExpression),
        Expression::Identifier(_) => spec_raw(SyntaxKind::Identifier),
        Expression::Literal(_) => spec_raw(SyntaxKind::Literal),
        Expression::Function(_) => spec_raw(SyntaxKind::FunctionDefinition),
        Expression::TableConstructor(_) => spec_raw(SyntaxKind::TableConstructor),
    }
}

impl<'a> View for Expression<'a> {
    type V = Node;

    closed spec fn view(&self) -> Node {
        match self {
            Expression::UnaryExpression(x) => *x.node,
            Expression::BinaryExpression(x) => *x.node,
            Expression::GroupedExpression(x) => *x.node,
            Expression::Identifier(x) => *x.node,
            Expression::Literal(x) => *x.node,
            Expression::Function(x) => *x.node,
            Expression::TableConstructor(x) => *x.node,
        }
    }
}

/// The variant of `x` is the one its node's kind gives.
pub open spec fn tagged(x: Expression) -> bool {
    tagged_kind(x) == x@.kind
}

impl<'a> AstNode<'a> for Expression<'a> {
    fn cast(node: &'a Node) -> (r: Option<Self>)
        ensures
            r is Some <==> is_typed_expression_kind(node.kind),
            r matches Some(x) ==> x@ == *node && tagged(x),
    {
        if node.kind == to_raw(SyntaxKind::UnaryExpression) {
            Some(Expression::UnaryExpression(UnaryExpression { node }))
        } else if node.kind == to_raw(SyntaxKind::BinaryExpression) {
            Some(Expression::BinaryExpression(BinaryExpression { node }))
        } else if node.kind == to_raw(SyntaxKind::GroupedExpression) {
            Some(Expression::GroupedExpression(GroupedExpression { node }))
        } else if node.kind == to_raw(SyntaxKind::Identifier) {
            Some(Expression::Identifier(Identifier { node }))
        } else if node.kind == to_raw(SyntaxKind::Literal) {
            Some(Expression::Literal(Literal { node }))
        } else if node.kind == to_raw(SyntaxKind::FunctionDefinition) {
            Some(Expression::Function(FunctionDefinition { node }))
        } else if node.kind == to_raw(SyntaxKind::TableConstructor) {
            Some(Expression::TableConstructor(TableConstructor { node }))
        } else {
            None
        }
    }

    fn syntax(&self) -> (r: &'a Node)
        ensures
            *r == self@,
    {
        match self {
            Expression::UnaryExpression(x) => x.node,
            Expression::BinaryExpression(x) => x.node,
            Expression::GroupedExpression(x) => x.node,
            Expression::Identifier(x) => x.node,
            Expression::Literal(x) => x.node,
            Expression::Function(x) => x.node,
            Expression::TableConstructor(x) => x.node,
        }
    }
}

/// The child nodes among `s` that are statements, in order.
pub open spec fn statement_nodes(s: Seq<Element>) -> Seq<Node>
    decreases s.len(),
{
    if s.len() == 0 {
        Seq::empty()
    } else {
        let rest = statement_nodes(s.drop_last());
        match s.last() {
            Element::Node(n) => if is_block_statement_kind(n.kind) {
                rest.push(n)
            } else {
                rest
            },
            Element::Token(_, _) => rest,
        }
    }
}

/// The expressions among the children of `n`, in order.
fn expressions_of<'a>(n: &'a Node) -> (r: Vec<Expression<'a>>)
    ensures
        views_nodes(r@, nodes_in_class(n.children@, NodeClass::Expression)),
        forall|i: int| 0 <= i < r@.len() ==> #[trigger] tagged(r@[i]),
{
    let mut r: Vec<Expression<'a>> = Vec::new();
    let mut i: usize = 0;
    let children = &n.children;
    while i < children.len()
        invariant
            i <= children@.len(),
            *children == n.children,
            views_nodes(r@, nodes_in_class(children@.take(i as int), NodeClass::Expression)),
            forall|j: int| 0 <= j < r@.len() ==> #[trigger] tagged(r@[j]),
        decreases children@.len() - i,
    {
        assert(children@.take(i + 1).drop_last() =~= children@.take(i as int));
        match &children[i] {
            Element::Node(c) => {
                match Expression::cast(c) {
                    Some(e) => {
                        r.push(e);
                    },
                    None => {},
                }
            },
            Element::Token(_, _) => {},
        }
        i = i + 1;
    }
    assert(children@.take(children@.len() as int) =~= children@);
    r
}

/// The first expression among the children of `n`.
fn first_expression<'a>(n: &'a Node) -> (r: Option<Expression<'a>>)
    ensures
        views_node(r, first_in_class(n.children@, NodeClass::Expression)),
        r matches Some(e) ==> tagged(e),
{
    let all = expressions_of(n);
    if all.len() > 0 {
        let e = all[0];
        Some(e)
    } else {
        None
    }
}

} // verus!
