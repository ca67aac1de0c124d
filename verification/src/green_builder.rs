//! The calls into rowan's `GreenNodeBuilder` that the syntax tree generators
//! make, with what rowan's source shows of each.
//!
//! A builder holds a stack of open nodes, each with its kind and the index of
//! its first element, and the list of finished elements (tokens and nodes) at
//! the current level. `open_nodes` names the stack, `built_trees` names the
//! finished elements (tokens with their kind and text, nodes with their kind
//! and children), `checkpoint_index` names the element index that a
//! checkpoint records, `added_text` names the text of the tokens added so far,
//! and `green_kind` names the raw kind of a tree's root.
use vstd::prelude::*;
use rowan::{Checkpoint, GreenNode, GreenNodeBuilder};
use crate::unicode::byte_length;
use crate::ast::{green_walk, StepView};

verus! {

#[verifier::external_type_specification]
#[verifier::external_body]
pub struct ExGreenNodeBuilder<'a>(GreenNodeBuilder<'a>);

#[verifier::external_type_specification]
#[verifier::external_body]
pub struct ExGreenNode(GreenNode);

#[verifier::external_type_specification]
#[verifier::external_body]
pub struct ExCheckpoint(Checkpoint);

/// The stack of nodes that were started and not yet finished: raw kind and
/// index of the first element.
pub uninterp spec fn open_nodes(b: GreenNodeBuilder<'static>) -> Seq<(u16, int)>;

/// A finished element of a tree: a token with its raw kind and text, or a
/// node with its raw kind and its children in order.
pub enum GreenTree {
    Token(u16, Seq<char>),
    Node(u16, Seq<GreenTree>),
}

/// The elements finished so far at all open levels, in order.
pub uninterp spec fn built_trees(b: GreenNodeBuilder<'static>) -> Seq<GreenTree>;

/// Whether an element is a node (or a token), and its raw kind.
pub open spec fn tree_head(t: GreenTree) -> (bool, u16) {
    match t {
        GreenTree::Token(k, _) => (false, k),
        GreenTree::Node(k, _) => (true, k),
    }
}

/// The elements built so far at all open levels, in order: whether each is a
/// node (or a token), and its raw kind.
pub open spec fn built_elements(b: GreenNodeBuilder<'static>) -> Seq<(bool, u16)> {
    Seq::new(built_trees(b).len(), |i: int| tree_head(built_trees(b)[i]))
}

/// The preorder walk of a finished element: a node is entered, its children
/// are walked in order, and it is left; a token is one step with its text.
pub open spec fn tree_steps(t: GreenTree) -> Seq<StepView>
    decreases t,
{
    match t {
        GreenTree::Token(k, text) => seq![StepView::Token(k, text)],
        GreenTree::Node(k, children) => seq![StepView::Enter(k)] + trees_steps(children) + seq![
            StepView::Leave,
        ],
    }
}

pub open spec fn trees_steps(s: Seq<GreenTree>) -> Seq<StepView>
    decreases s,
{
    if s.len() == 0 {
        Seq::empty()
    } else {
        trees_steps(s.drop_last()) + tree_steps(s.last())
    }
}

/// The text of the tokens added so far, in the order they were added, which is
/// also their order in the elements.
pub uninterp spec fn added_text(b: GreenNodeBuilder<'static>) -> Seq<char>;

/// The raw kind of the root node of a tree (`GreenNodeData::kind`).
pub uninterp spec fn green_kind(g: GreenNode) -> u16;

/// The element index that a checkpoint records.
pub uninterp spec fn checkpoint_index(c: Checkpoint) -> int;

/// What rowan keeps true of a builder: every open node starts at or after the
/// one below it, and within the elements.
pub open spec fn builder_ok(b: GreenNodeBuilder<'static>) -> bool {
    let p = open_nodes(b);
    let n = built_elements(b).len();
    &&& forall|i: int| 0 <= i < p.len() ==> 0 <= #[trigger] p[i].1 <= n
    &&& forall|i: int, j: int| 0 <= i < j < p.len() ==> #[trigger] p[i].1 <= #[trigger] p[j].1
    &&& p.len() > 0 ==> 0 <= p.last().1 <= n
}

/// The first element index of the innermost open node, or 0.
pub open spec fn innermost_first(b: GreenNodeBuilder<'static>) -> int {
    let p = open_nodes(b);
    if p.len() > 0 {
        p.last().1
    } else {
        0
    }
}

/// Opening a node and closing it leaves the stack as it was.
pub broadcast proof fn lemma_push_drop_last<A>(s: Seq<A>, x: A)
    ensures
        #[trigger] s.push(x).drop_last() == s,
{
    assert(s.push(x).drop_last() =~= s);
}

/// `GreenNodeBuilder::new`: a builder with nothing open and nothing built.
#[verifier::external_body]
pub(crate) fn new_builder() -> (b: GreenNodeBuilder<'static>)
    ensures
        open_nodes(b) == Seq::<(u16, int)>::empty(),
        built_trees(b) == Seq::<GreenTree>::empty(),
        added_text(b) == Seq::<char>::empty(),
{
    GreenNodeBuilder::new()
}

/// `GreenNodeBuilder::token`: appends a token element with the given raw kind
/// and text (the characters, collected into a string). rowan takes a token's
/// length as a `TextSize`, a `u32` that `try_into().unwrap()` makes of the
/// string's byte length, so the text must fit in it.
#[verifier::external_body]
pub(crate) fn add_token(b: &mut GreenNodeBuilder<'static>, kind: u16, text: &[char])
    requires
        byte_length(text@) <= u32::MAX,
    ensures
        open_nodes(*final(b)) == open_nodes(*old(b)),
        built_trees(*final(b)) == built_trees(*old(b)).push(GreenTree::Token(kind, text@)),
        added_text(*final(b)) == added_text(*old(b)) + text@,
{
    let s: String = text.iter().collect();
    b.token(rowan::SyntaxKind(kind), &s)
}

/// `GreenNodeBuilder::start_node`: opens a node whose first element is the
/// next one built.
#[verifier::external_body]
pub(crate) fn start_node(b: &mut GreenNodeBuilder<'static>, kind: u16)
    ensures
        open_nodes(*final(b)) == open_nodes(*old(b)).push((kind, built_trees(*old(b)).len() as int)),
        built_trees(*final(b)) == built_trees(*old(b)),
        added_text(*final(b)) == added_text(*old(b)),
{
    b.start_node(rowan::SyntaxKind(kind))
}

/// `GreenNodeBuilder::finish_node`: closes the innermost open node; its
/// elements are replaced by one node element of the node's kind. rowan unwraps
/// the popped entry, so a node must be open, and it adds up the node's text
/// length in a `u32` `TextSize`, which holds since all the text added so far
/// fits in one.
#[verifier::external_body]
pub(crate) fn finish_node(b: &mut GreenNodeBuilder<'static>)
    requires
        open_nodes(*old(b)).len() > 0,
        builder_ok(*old(b)),
        byte_length(added_text(*old(b))) <= u32::MAX,
    ensures
        added_text(*final(b)) == added_text(*old(b)),
        open_nodes(*final(b)) == open_nodes(*old(b)).drop_last(),
        built_trees(*final(b)) == built_trees(*old(b)).take(open_nodes(*old(b)).last().1).push(
            GreenTree::Node(
                open_nodes(*old(b)).last().0,
                built_trees(*old(b)).skip(open_nodes(*old(b)).last().1),
            ),
        ),
{
    b.finish_node()
}

/// `GreenNodeBuilder::checkpoint`: records the current number of elements.
#[verifier::external_body]
pub(crate) fn checkpoint(b: &GreenNodeBuilder<'static>) -> (c: Checkpoint)
    ensures
        checkpoint_index(c) == built_trees(*b).len(),
{
    b.checkpoint()
}

/// `GreenNodeBuilder::start_node_at`: opens a node whose first element is the
/// one the checkpoint recorded. rowan asserts that the checkpoint is within
/// the elements and not before the first element of the innermost open node.
#[verifier::external_body]
pub(crate) fn start_node_at(b: &mut GreenNodeBuilder<'static>, c: Checkpoint, kind: u16)
    requires
        checkpoint_index(c) <= built_trees(*old(b)).len(),
        innermost_first(*old(b)) <= checkpoint_index(c),
    ensures
        open_nodes(*final(b)) == open_nodes(*old(b)).push((kind, checkpoint_index(c))),
        built_trees(*final(b)) == built_trees(*old(b)),
        added_text(*final(b)) == added_text(*old(b)),
{
    b.start_node_at(c, rowan::SyntaxKind(kind))
}

/// `GreenNodeBuilder::finish`: the tree, whose root is the one node that was
/// built; rowan asserts that exactly one element was built and unwraps it as a
/// node. The tree is that node: its kind is the root's, and its preorder walk
/// is the node's.
#[verifier::external_body]
pub(crate) fn finish(b: GreenNodeBuilder<'static>) -> (g: GreenNode)
    requires
        built_trees(b).len() == 1,
        built_trees(b)[0] is Node,
    ensures
        green_kind(g) == tree_head(built_trees(b)[0]).1,
        green_walk(g) == tree_steps(built_trees(b)[0]),
{
    b.finish()
}

} // verus!
