//! A typed view of the syntax tree that the generator builds.
//!
//! The tree is held as plain values: a `Node` has a raw kind and its children,
//! each a node or a token with its kind and text. The typed views of module
//! `typed` each borrow one node of the matching kind and find its parts among
//! the node's children, in order.
use vstd::prelude::*;
pub mod typed;
pub use self::typed::{
    Assign, AstNode, BinaryExpression, Block, DoGroup, ElseBranch, Expression, ExpressionList,
    ForCountLoop, ForInLoop, FunctionCall, FunctionDefinition, GroupedExpression, Identifier,
    IfBranch, IfChain, LocalAssign, Literal, NameList, ParameterList, RepeatUntilLoop, Statement,
    TableConstructor, UnaryExpression, VariableList, WhileLoop,
};
use rowan::GreenNode;
use crate::green_builder::green_kind;
use crate::syntax::syntax::{spec_raw, to_raw, SyntaxKind};
use crate::unicode::{byte_length, lemma_encode_len};
use vstd::string::StringExecFns;

verus! {

pub struct Node {
    pub kind: u16,
    pub children: Vec<Element>,
}

pub enum Element {
    Node(Node),
    Token(u16, String),
}

// ---------------------------------------------------------------------------
// The tree as rowan walks it
// ---------------------------------------------------------------------------

/// One step of a preorder walk over a tree.
pub enum WalkStep {
    /// A node of this raw kind starts.
    Enter(u16),
    /// A token of this raw kind and text.
    Token(u16, String),
    /// A token ends.
    LeaveToken,
    /// The innermost node that started ends.
    Leave,
}

/// The preorder walk of a green tree, as rowan gives it: what the tree holds.
pub uninterp spec fn green_walk(g: GreenNode) -> Seq<StepView>;

/// rowan's preorder walk of a green tree (`cursor::SyntaxNode::preorder_with_tokens`):
/// one step per event, nodes and tokens by their raw kind, tokens with their
/// text. rowan's iterator enters the root first, enters and leaves each token,
/// walks each node's children in order between entering and leaving it, and
/// stops after leaving the root: the steps are the full walk of some tree whose
/// root has the green node's kind. The steps that matter to the tree are named.
#[verifier::external_body]
fn walk_tree(green: &GreenNode) -> (steps: Vec<WalkStep>)
    ensures
        kept_steps(steps@) == green_walk(*green),
        is_full_walk(views_of(steps@), green_kind(*green)),
{
    rowan::cursor::SyntaxNode::new_root(green.clone()).preorder_with_tokens().map(|e| match e {
        rowan::WalkEvent::Enter(rowan::NodeOrToken::Node(n)) => WalkStep::Enter(n.kind().0),
        rowan::WalkEvent::Enter(rowan::NodeOrToken::Token(t)) => WalkStep::Token(
            t.kind().0,
            t.text().to_string(),
        ),
        rowan::WalkEvent::Leave(rowan::NodeOrToken::Node(_)) => WalkStep::Leave,
        rowan::WalkEvent::Leave(rowan::NodeOrToken::Token(_)) => WalkStep::LeaveToken,
    }).collect()
}

/// A walk step with its token text as characters.
pub enum FullStep {
    Enter(u16),
    Token(u16, Seq<char>),
    LeaveToken,
    Leave,
}

pub open spec fn step_view(w: WalkStep) -> FullStep {
    match w {
        WalkStep::Enter(k) => FullStep::Enter(k),
        WalkStep::Token(k, t) => FullStep::Token(k, t@),
        WalkStep::LeaveToken => FullStep::LeaveToken,
        WalkStep::Leave => FullStep::Leave,
    }
}

/// The steps of a walk with their texts as characters.
pub open spec fn views_of(s: Seq<WalkStep>) -> Seq<FullStep> {
    Seq::new(s.len(), |i: int| step_view(s[i]))
}

/// The full preorder walk of a tree, as rowan gives it: a node is entered, its
/// children are walked in order, and it is left; a token is entered and left.
pub open spec fn full_walk_of(n: Node) -> Seq<FullStep>
    decreases n, 1nat,
{
    seq![FullStep::Enter(n.kind)] + full_children_walk(n.children@) + seq![FullStep::Leave]
}

pub open spec fn full_children_walk(s: Seq<Element>) -> Seq<FullStep>
    decreases s, 0nat,
{
    if s.len() == 0 {
        Seq::empty()
    } else {
        full_children_walk(s.drop_last()) + match s.last() {
            Element::Node(m) => full_walk_of(m),
            Element::Token(k, t) => seq![FullStep::Token(k, t@), FullStep::LeaveToken],
        }
    }
}

/// Whether `v` is the full walk of a tree whose root has kind `root`.
pub open spec fn is_full_walk(v: Seq<FullStep>, root: u16) -> bool {
    exists|n: Node| v == full_walk_of(n) && n.kind == root
}

/// How deep a walk ends: the nodes it entered and did not leave.
pub open spec fn depth(f: Seq<FullStep>) -> int
    decreases f.len(),
{
    if f.len() == 0 {
        0
    } else {
        depth(f.drop_last()) + match f.last() {
            FullStep::Enter(_) => 1int,
            FullStep::Leave => -1int,
            _ => 0int,
        }
    }
}

/// The steps of a full walk that matter to the tree: all but the ends of tokens.
pub open spec fn kept_of_full(f: Seq<FullStep>) -> Seq<StepView>
    decreases f.len(),
{
    if f.len() == 0 {
        Seq::empty()
    } else {
        let rest = kept_of_full(f.drop_last());
        match f.last() {
            FullStep::Enter(k) => rest.push(StepView::Enter(k)),
            FullStep::Token(k, t) => rest.push(StepView::Token(k, t)),
            FullStep::LeaveToken => rest,
            FullStep::Leave => rest.push(StepView::Leave),
        }
    }
}

proof fn lemma_depth_add(a: Seq<FullStep>, b: Seq<FullStep>)
    ensures
        depth(a + b) == depth(a) + depth(b),
    decreases b.len(),
{
    if b.len() > 0 {
        assert((a + b).drop_last() =~= a + b.drop_last());
        lemma_depth_add(a, b.drop_last());
    } else {
        assert(a + b =~= a);
    }
}

proof fn lemma_kept_add(a: Seq<FullStep>, b: Seq<FullStep>)
    ensures
        kept_of_full(a + b) == kept_of_full(a) + kept_of_full(b),
    decreases b.len(),
{
    if b.len() > 0 {
        assert((a + b).drop_last() =~= a + b.drop_last());
        lemma_kept_add(a, b.drop_last());
        assert((a + b).last() == b.last());
        let ka = kept_of_full(a);
        let kb = kept_of_full(b.drop_last());
        match b.last() {
            FullStep::Enter(k) => assert(ka + kb.push(StepView::Enter(k)) =~= (ka + kb).push(StepView::Enter(k))),
            FullStep::Token(k, t) => assert(ka + kb.push(StepView::Token(k, t)) =~= (ka + kb).push(StepView::Token(k, t))),
            FullStep::LeaveToken => {},
            FullStep::Leave => assert(ka + kb.push(StepView::Leave) =~= (ka + kb).push(StepView::Leave)),
        }
    } else {
        assert(a + b =~= a);
        assert(kept_of_full(a) + kept_of_full(b) =~= kept_of_full(a));
    }
}

/// A full walk of a tree starts by entering its root, ends by leaving it, is
/// inside the root at every step between, and keeps the walk of the tree.
proof fn lemma_full_walk(n: Node)
    ensures
        full_walk_of(n).len() >= 2,
        full_walk_of(n)[0] == FullStep::Enter(n.kind),
        full_walk_of(n).last() == FullStep::Leave,
        depth(full_walk_of(n)) == 0,
        forall|i: int| 0 < i < full_walk_of(n).len() ==> #[trigger] depth(full_walk_of(n).take(i)) >= 1,
        kept_of_full(full_walk_of(n)) == walk_of(n),
    decreases n, 1nat,
{
    let c = full_children_walk(n.children@);
    let f = full_walk_of(n);
    lemma_children_walk(n.children@);
    let e = seq![FullStep::Enter(n.kind)];
    let l = seq![FullStep::Leave];
    assert(depth(e) == 1) by {
        assert(e.drop_last() =~= Seq::<FullStep>::empty());
        reveal_with_fuel(depth, 2);
    }
    assert(depth(l) == -1) by {
        assert(l.drop_last() =~= Seq::<FullStep>::empty());
        reveal_with_fuel(depth, 2);
    }
    lemma_depth_add(e, c);
    lemma_depth_add(e + c, l);
    assert forall|i: int| 0 < i < f.len() implies #[trigger] depth(f.take(i)) >= 1 by {
        assert(f.take(i) =~= e + c.take(i - 1));
        lemma_depth_add(e, c.take(i - 1));
    }
    lemma_kept_add(e, c);
    lemma_kept_add(e + c, l);
    assert(kept_of_full(e) =~= seq![StepView::Enter(n.kind)]) by {
        assert(e.drop_last() =~= Seq::<FullStep>::empty());
        reveal_with_fuel(kept_of_full, 2);
    }
    assert(kept_of_full(l) =~= seq![StepView::Leave]) by {
        assert(l.drop_last() =~= Seq::<FullStep>::empty());
        reveal_with_fuel(kept_of_full, 2);
    }
}

proof fn lemma_children_walk(s: Seq<Element>)
    ensures
        depth(full_children_walk(s)) == 0,
        forall|i: int| 0 <= i <= full_children_walk(s).len() ==> #[trigger] depth(full_children_walk(s).take(i)) >= 0,
        kept_of_full(full_children_walk(s)) == children_walk(s),
    decreases s, 0nat,
{
    let c = full_children_walk(s);
    if s.len() == 0 {
        assert forall|i: int| 0 <= i <= c.len() implies #[trigger] depth(c.take(i)) >= 0 by {
            assert(c.take(i).len() == 0);
        }
    } else {
        let front = full_children_walk(s.drop_last());
        lemma_children_walk(s.drop_last());
        let piece = match s.last() {
            Element::Node(m) => full_walk_of(m),
            Element::Token(k, t) => seq![FullStep::Token(k, t@), FullStep::LeaveToken],
        };
        assert(c == front + piece);
        match s.last() {
            Element::Node(m) => {
                lemma_full_walk(m);
            },
            Element::Token(k, t) => {
                assert(piece.drop_last() =~= seq![FullStep::Token(k, t@)]);
                assert(piece.drop_last().drop_last() =~= Seq::<FullStep>::empty());
                assert(kept_of_full(piece) =~= seq![StepView::Token(k, t@)]) by {
                    reveal_with_fuel(kept_of_full, 3);
                }
            },
        }
        assert forall|j: int| 0 <= j <= piece.len() implies #[trigger] depth(piece.take(j)) >= 0 by {
            match s.last() {
                Element::Node(m) => {
                    if j == piece.len() {
                        assert(piece.take(j) =~= piece);
                    } else if j == 0 {
                        assert(piece.take(j).len() == 0);
                    }
                },
                Element::Token(k, t) => {
                    reveal_with_fuel(depth, 3);
                    if j == 2 {
                        assert(piece.take(j) =~= piece);
                        assert(piece.drop_last() =~= seq![FullStep::Token(k, t@)]);
                        assert(piece.drop_last().drop_last() =~= Seq::<FullStep>::empty());
                    } else if j == 1 {
                        assert(piece.take(j) =~= seq![FullStep::Token(k, t@)]);
                        assert(piece.take(j).drop_last() =~= Seq::<FullStep>::empty());
                    } else {
                        assert(piece.take(j).len() == 0);
                    }
                },
            }
        }
        assert(depth(piece) == 0) by {
            assert(piece.take(piece.len() as int) =~= piece);
            match s.last() {
                Element::Node(m) => {},
                Element::Token(k, t) => {
                    reveal_with_fuel(depth, 3);
                    assert(piece.drop_last() =~= seq![FullStep::Token(k, t@)]);
                    assert(piece.drop_last().drop_last() =~= Seq::<FullStep>::empty());
                },
            }
        }
        lemma_depth_add(front, piece);
        assert forall|i: int| 0 <= i <= c.len() implies #[trigger] depth(c.take(i)) >= 0 by {
            if i <= front.len() {
                assert(c.take(i) =~= front.take(i));
            } else {
                assert(c.take(i) =~= front + piece.take(i - front.len()));
                lemma_depth_add(front, piece.take(i - front.len()));
                assert(front.take(front.len() as int) =~= front);
            }
        }
        lemma_kept_add(front, piece);
    }
}

proof fn lemma_kept_views(s: Seq<WalkStep>)
    ensures
        kept_steps(s) == kept_of_full(views_of(s)),
    decreases s.len(),
{
    if s.len() > 0 {
        assert(views_of(s).drop_last() =~= views_of(s.drop_last()));
        lemma_kept_views(s.drop_last());
    }
}

/// What a walk step means: token texts as characters.
pub enum StepView {
    Enter(u16),
    Token(u16, Seq<char>),
    Leave,
}

/// The steps of a walk that matter to the tree: all but the ends of tokens.
pub open spec fn kept_steps(s: Seq<WalkStep>) -> Seq<StepView>
    decreases s.len(),
{
    if s.len() == 0 {
        Seq::empty()
    } else {
        let rest = kept_steps(s.drop_last());
        match s.last() {
            WalkStep::Enter(k) => rest.push(StepView::Enter(k)),
            WalkStep::Token(k, t) => rest.push(StepView::Token(k, t@)),
            WalkStep::LeaveToken => rest,
            WalkStep::Leave => rest.push(StepView::Leave),
        }
    }
}

/// The preorder walk of a tree: a node is entered, its children are walked in
/// order, and it is left; a token is one step.
pub open spec fn walk_of(n: Node) -> Seq<StepView>
    decreases n, 1nat,
{
    seq![StepView::Enter(n.kind)] + children_walk(n.children@) + seq![StepView::Leave]
}

pub open spec fn children_walk(s: Seq<Element>) -> Seq<StepView>
    decreases s, 0nat,
{
    if s.len() == 0 {
        Seq::empty()
    } else {
        children_walk(s.drop_last()) + match s.last() {
            Element::Node(m) => walk_of(m),
            Element::Token(k, t) => seq![StepView::Token(k, t@)],
        }
    }
}

/// The walk so far of a stack of nodes that were entered and not yet left:
/// for each, its entering and the walks of the children it has so far.
pub open spec fn open_walk(stack: Seq<Node>) -> Seq<StepView>
    decreases stack.len(),
{
    if stack.len() == 0 {
        Seq::empty()
    } else {
        open_walk(stack.drop_last()) + seq![StepView::Enter(stack.last().kind)] + children_walk(
            stack.last().children@,
        )
    }
}

/// Builds the tree that a preorder walk describes: None unless the walk is one
/// node, entered first and left last, with every node it enters left again.
/// A tree it gives has exactly that walk, and the full walk of any tree gives
/// one.
pub fn tree_from_walk(steps: &Vec<WalkStep>) -> (r: Option<Node>)
    ensures
        r matches Some(n) ==> walk_of(n) == kept_steps(steps@),
        (exists|m: Node| views_of(steps@) == full_walk_of(m)) ==> r is Some,
{
    let ghost v = views_of(steps@);
    let ghost whole = exists|m: Node| views_of(steps@) == full_walk_of(m);
    proof {
        if whole {
            let m = choose|m: Node| views_of(steps@) == full_walk_of(m);
            lemma_full_walk(m);
        }
    }
    let mut stack: Vec<Node> = Vec::new();
    let mut done: Option<Node> = None;
    let mut i: usize = 0;
    while i < steps.len()
        invariant
            i <= steps@.len(),
            v == views_of(steps@),
            whole == (exists|m: Node| views_of(steps@) == full_walk_of(m)),
            done is None ==> kept_steps(steps@.take(i as int)) == open_walk(stack@),
            done matches Some(n) ==> walk_of(n) == kept_steps(steps@.take(i as int)),
            done is None ==> stack@.len() == depth(v.take(i as int)),
            done is Some ==> depth(v.take(i as int)) == 0 && i >= 1,
            whole ==> v.len() >= 2 && v[0] is Enter && v.last() == FullStep::Leave && depth(v) == 0,
            whole ==> forall|j: int| 0 < j < v.len() ==> #[trigger] depth(v.take(j)) >= 1,
            whole && i == v.len() ==> done is Some,
        decreases steps@.len() - i,
    {
        if done.is_some() {
            proof {
                if whole {
                    assert(depth(v.take(i as int)) >= 1);
                }
                assert(!whole);
            }
            return None;
        }
        assert(steps@.take(i + 1).drop_last() =~= steps@.take(i as int));
        assert(steps@.take(i + 1).last() == steps@[i as int]);
        assert(v.take(i + 1).drop_last() =~= v.take(i as int));
        assert(v.take(i + 1).last() == step_view(steps@[i as int]));
        proof {
            if whole && i == 0 {
                assert(v.take(0) =~= Seq::<FullStep>::empty());
            }
            if whole && i + 1 == v.len() {
                assert(v.take(i + 1) =~= v);
            }
        }
        match &steps[i] {
            WalkStep::Enter(kind) => {
                let ghost before = stack@;
                stack.push(Node { kind: *kind, children: Vec::new() });
                proof {
                    assert(stack@.drop_last() =~= before);
                    assert(stack@.last().children@ =~= Seq::<Element>::empty());
                    assert(open_walk(stack@) =~= open_walk(before) + seq![StepView::Enter(*kind)]);
                }
            },
            WalkStep::Token(kind, text) => {
                let len = stack.len();
                if len == 0 {
                    proof {
                        if whole && i > 0 {
                            assert(depth(v.take(i as int)) >= 1);
                        }
                        assert(!whole);
                    }
                    return None;
                }
                let ghost before = stack@;
                let mut top = stack.pop().unwrap();
                let ghost old_children = top.children@;
                top.children.push(Element::Token(*kind, text.clone()));
                proof {
                    assert(top.children@.drop_last() =~= old_children);
                }
                stack.push(top);
                proof {
                    assert(stack@.drop_last() =~= before.drop_last());
                    assert(before.last().children@ == old_children);
                    assert(children_walk(top.children@) =~= children_walk(old_children) + seq![
                        StepView::Token(*kind, text@),
                    ]);
                    assert(open_walk(stack@) =~= open_walk(before) + seq![StepView::Token(*kind, text@)]);
                }
            },
            WalkStep::LeaveToken => {},
            WalkStep::Leave => {
                let ghost before = stack@;
                match stack.pop() {
                    Some(node) => {
                        let len = stack.len();
                        if len == 0 {
                            proof {
                                assert(before.drop_last() =~= Seq::<Node>::empty());
                                assert(node == before[before.len() - 1]);
                                assert(open_walk(before.drop_last()) =~= Seq::<StepView>::empty());
                                assert(open_walk(before) =~= seq![StepView::Enter(node.kind)]
                                    + children_walk(node.children@));
                                assert(walk_of(node) =~= open_walk(before) + seq![StepView::Leave]);
                            }
                            done = Some(node);
                        } else {
                            let ghost rest = stack@;
                            let mut parent = stack.pop().unwrap();
                            let ghost old_children = parent.children@;
                            parent.children.push(Element::Node(node));
                            proof {
                                assert(parent.children@.drop_last() =~= old_children);
                            }
                            stack.push(parent);
                            proof {
                                assert(stack@.drop_last() =~= rest.drop_last());
                                assert(rest.last().children@ == old_children);
                                assert(before.drop_last() =~= rest);
                                assert(children_walk(parent.children@) =~= children_walk(old_children)
                                    + walk_of(node));
                                assert(open_walk(stack@) =~= open_walk(rest) + walk_of(node));
                                assert(open_walk(before) + seq![StepView::Leave] =~= open_walk(rest)
                                    + walk_of(node));
                            }
                        }
                    },
                    None => {
                        proof {
                            if whole && i > 0 {
                                assert(depth(v.take(i as int)) >= 1);
                            }
                            assert(!whole);
                        }
                        return None;
                    },
                }
            },
        }
        i = i + 1;
    }
    assert(steps@.take(steps@.len() as int) =~= steps@);
    done
}

/// The plain tree of a green tree, as rowan walks it: it has exactly the walk
/// of the green tree, and its root has the green tree's kind.
pub fn tree_of(green: &GreenNode) -> (n: Node)
    ensures
        walk_of(n) == green_walk(*green),
        n.kind == green_kind(*green),
{
    let steps = walk_tree(green);
    let r = tree_from_walk(&steps);
    proof {
        let m = choose|m: Node| views_of(steps@) == full_walk_of(m) && m.kind == green_kind(*green);
        lemma_full_walk(m);
        lemma_kept_views(steps@);
        let n = r->0;
        assert(walk_of(n)[0] == StepView::Enter(n.kind));
        assert(walk_of(m)[0] == StepView::Enter(m.kind));
    }
    match r {
        Some(n) => n,
        None => Node { kind: 0, children: Vec::new() },
    }
}

// ---------------------------------------------------------------------------
// Texts, lengths and the node under an offset
// ---------------------------------------------------------------------------

/// The text of a tree: the texts of its tokens, in order.
pub open spec fn node_text(n: Node) -> Seq<char>
    decreases n,
{
    elements_text(n.children@)
}

pub open spec fn elements_text(s: Seq<Element>) -> Seq<char>
    decreases s,
{
    if s.len() == 0 {
        Seq::empty()
    } else {
        let last = match s.last() {
            Element::Node(m) => node_text(m),
            Element::Token(_, t) => t@,
        };
        elements_text(s.drop_last()) + last
    }
}

/// The UTF-8 byte length of a tree's text.
pub open spec fn node_len(n: Node) -> nat
    decreases n,
{
    elements_len(n.children@)
}

pub open spec fn elements_len(s: Seq<Element>) -> nat
    decreases s,
{
    if s.len() == 0 {
        0
    } else {
        let last = match s.last() {
            Element::Node(m) => node_len(m),
            Element::Token(_, t) => byte_length(t@) as nat,
        };
        elements_len(s.drop_last()) + last
    }
}

/// The byte length of one element's text.
pub open spec fn element_len(e: Element) -> nat {
    match e {
        Element::Node(m) => node_len(m),
        Element::Token(_, t) => byte_length(t@) as nat,
    }
}

/// The index of the element of `s` whose text holds byte offset `o` (counted
/// from the start of the first element), or -1.
pub open spec fn child_index(s: Seq<Element>, o: int) -> int
    decreases s.len(),
{
    if s.len() == 0 {
        -1
    } else if elements_len(s.drop_last()) <= o < elements_len(s) {
        s.len() - 1
    } else {
        child_index(s.drop_last(), o)
    }
}

/// The nodes from `n` down to the parent of the token whose text holds byte
/// offset `o` of `n`'s text, each with the offset where its text starts
/// (`n`'s at `base`); None when no token holds it.
pub open spec fn hover_path(n: Node, o: int, base: int) -> Option<Seq<(Node, int)>>
    decreases n,
{
    let s = n.children@;
    let i = child_index(s, o);
    if 0 <= i < s.len() {
        match s[i] {
            Element::Token(_, _) => Some(seq![(n, base)]),
            Element::Node(m) => {
                let pre = elements_len(s.take(i));
                match hover_path(m, o - pre, base + pre) {
                    Some(p) => Some(seq![(n, base)] + p),
                    None => None,
                }
            },
        }
    } else {
        None
    }
}

/// The innermost node of a path that is not an `Identifier`.
pub open spec fn described(p: Seq<(Node, int)>) -> Option<Node>
    decreases p.len(),
{
    if p.len() == 0 {
        None
    } else if p.last().0.kind != spec_raw(SyntaxKind::Identifier) {
        Some(p.last().0)
    } else {
        described(p.drop_last())
    }
}

/// The path to the token under a hover offset: the token whose text holds the
/// byte at the offset, or at the end of the text the last one.
pub open spec fn spec_hover(root: Node, offset: int) -> Option<Seq<(Node, int)>> {
    let total = node_len(root);
    if offset > total || total == 0 {
        None
    } else {
        hover_path(root, if offset == total { offset - 1 } else { offset }, 0)
    }
}

proof fn lemma_elements_len_step(s: Seq<Element>, i: int)
    requires
        0 <= i < s.len(),
    ensures
        elements_len(s.take(i + 1)) == elements_len(s.take(i)) + element_len(s[i]),
        elements_text(s.take(i + 1)) == elements_text(s.take(i)) + match s[i] {
            Element::Node(m) => node_text(m),
            Element::Token(_, t) => t@,
        },
{
    assert(s.take(i + 1).drop_last() =~= s.take(i));
    assert(s.take(i + 1).last() == s[i]);
}

proof fn lemma_elements_len_mono(s: Seq<Element>, i: int, j: int)
    requires
        0 <= i <= j <= s.len(),
    ensures
        elements_len(s.take(i)) <= elements_len(s.take(j)),
    decreases j - i,
{
    if i < j {
        lemma_elements_len_mono(s, i, j - 1);
        lemma_elements_len_step(s, j - 1);
    }
}

/// The element found by `child_index` is the one whose text holds `o`.
proof fn lemma_child_index(s: Seq<Element>, o: int, i: int)
    requires
        0 <= i < s.len(),
        elements_len(s.take(i)) <= o < elements_len(s.take(i + 1)),
    ensures
        child_index(s, o) == i,
    decreases s.len(),
{
    assert(s.take(s.len() as int) =~= s);
    assert(s.drop_last() =~= s.take(s.len() - 1));
    if i < s.len() - 1 {
        lemma_elements_len_mono(s, i + 1, s.len() - 1);
        assert(s.drop_last().take(i) =~= s.take(i));
        assert(s.drop_last().take(i + 1) =~= s.take(i + 1));
        lemma_child_index(s.drop_last(), o, i);
    }
}

/// No element's text holds `o`.
proof fn lemma_child_index_none(s: Seq<Element>, o: int)
    requires
        forall|i: int|
            0 <= i < s.len() ==> !(elements_len(s.take(i)) <= o < #[trigger] elements_len(
                s.take(i + 1),
            )),
    ensures
        child_index(s, o) < 0,
    decreases s.len(),
{
    if s.len() > 0 {
        let t = s.drop_last();
        assert(s.take(s.len() as int) =~= s);
        assert(t =~= s.take(s.len() - 1));
        let last = s.len() - 1;
        assert(!(elements_len(s.take(last)) <= o < elements_len(s.take(last + 1))));
        assert forall|i: int|
            0 <= i < t.len() implies !(elements_len(t.take(i)) <= o < #[trigger] elements_len(t.take(i + 1))) by {
            assert(t.take(i) =~= s.take(i));
            assert(t.take(i + 1) =~= s.take(i + 1));
        }
        lemma_child_index_none(t, o);
    }
}

/// The byte length of a token's text.
fn token_len(t: &String) -> (r: usize)
    requires
        byte_length(t@) <= usize::MAX,
    ensures
        r == byte_length(t@),
{
    proof {
        lemma_encode_len(t@);
    }
    let st = t.as_str();
    assert(st@ == t@);
    st.len()
}

/// The byte length of a tree's text.
pub fn node_byte_len(n: &Node) -> (r: usize)
    requires
        node_len(*n) <= usize::MAX,
    ensures
        r == node_len(*n),
    decreases n,
{
    let s = &n.children;
    let mut sum: usize = 0;
    let mut i: usize = 0;
    while i < s.len()
        invariant
            i <= s@.len(),
            s@ == n.children@,
            sum == elements_len(s@.take(i as int)),
            elements_len(s@) <= usize::MAX,
        decreases s@.len() - i,
    {
        proof {
            lemma_elements_len_step(s@, i as int);
            lemma_elements_len_mono(s@, i + 1, s@.len() as int);
            assert(s@.take(s@.len() as int) =~= s@);
        }
        let l = match &s[i] {
            Element::Node(m) => node_byte_len(m),
            Element::Token(_, t) => token_len(t),
        };
        sum = sum + l;
        i = i + 1;
    }
    assert(s@.take(s@.len() as int) =~= s@);
    sum
}

/// The text of a tree: the texts of its tokens, in order.
pub fn node_text_of(n: &Node) -> (r: String)
    ensures
        r@ == node_text(*n),
    decreases n,
{
    let s = &n.children;
    let mut r = String::new();
    let mut i: usize = 0;
    while i < s.len()
        invariant
            i <= s@.len(),
            s@ == n.children@,
            r@ == elements_text(s@.take(i as int)),
        decreases s@.len() - i,
    {
        proof {
            lemma_elements_len_step(s@, i as int);
        }
        match &s[i] {
            Element::Node(m) => {
                let t = node_text_of(m);
                r.append(t.as_str());
            },
            Element::Token(_, t) => {
                r.append(t.as_str());
            },
        }
        i = i + 1;
    }
    assert(s@.take(s@.len() as int) =~= s@);
    r
}

/// The nodes from `n` down to the parent of the token whose text holds byte
/// offset `o`, with the offsets where their texts start.
fn hover_in<'a>(n: &'a Node, o: usize, base: usize) -> (r: Option<Vec<(&'a Node, usize)>>)
    requires
        base + node_len(*n) <= usize::MAX,
    ensures
        r is Some <==> hover_path(*n, o as int, base as int) is Some,
        r matches Some(v) ==> v@.len() == hover_path(*n, o as int, base as int)->0.len()
            && v@.len() > 0 && forall|k: int|
            0 <= k < v@.len() ==> *(#[trigger] v@[k]).0 == hover_path(*n, o as int, base as int)->0[k].0
                && v@[k].1 == hover_path(*n, o as int, base as int)->0[k].1 && v@[k].1
                + node_len(*v@[k].0) <= base + node_len(*n),
    decreases n,
{
    let s = &n.children;
    let mut pre: usize = 0;
    let mut i: usize = 0;
    while i < s.len()
        invariant
            i <= s@.len(),
            s@ == n.children@,
            pre == elements_len(s@.take(i as int)),
            base + elements_len(s@) <= usize::MAX,
            forall|j: int|
                0 <= j < i ==> !(elements_len(s@.take(j)) <= o < #[trigger] elements_len(
                    s@.take(j + 1),
                )),
        decreases s@.len() - i,
    {
        proof {
            lemma_elements_len_step(s@, i as int);
            lemma_elements_len_mono(s@, i + 1, s@.len() as int);
            assert(s@.take(s@.len() as int) =~= s@);
        }
        let l = match &s[i] {
            Element::Node(m) => node_byte_len(m),
            Element::Token(_, t) => token_len(t),
        };
        if pre <= o && o < pre + l {
            proof {
                lemma_child_index(s@, o as int, i as int);
            }
            match &s[i] {
                Element::Token(_, _) => {
                    let mut v: Vec<(&'a Node, usize)> = Vec::new();
                    v.push((n, base));
                    return Some(v);
                },
                Element::Node(m) => {
                    match hover_in(m, o - pre, base + pre) {
                        Some(mut v) => {
                            let ghost sub = v@;
                            v.insert(0, (n, base));
                            proof {
                                let p = hover_path(*m, o - pre, base + pre)->0;
                                assert forall|k: int| 0 <= k < v@.len() implies *(#[trigger] v@[k]).0
                                    == hover_path(*n, o as int, base as int)->0[k].0 && v@[k].1
                                    == hover_path(*n, o as int, base as int)->0[k].1 && v@[k].1
                                    + node_len(*v@[k].0) <= base + node_len(*n) by {
                                    if k > 0 {
                                        assert(v@[k] == sub[k - 1]);
                                    }
                                }
                            }
                            return Some(v);
                        },
                        None => {
                            return None;
                        },
                    }
                },
            }
        }
        pre = pre + l;
        i = i + 1;
    }
    proof {
        lemma_child_index_none(s@, o as int);
    }
    None
}

/// What a hover at byte offset `offset` of a tree's text points at: the
/// innermost node above the token there that is not an `Identifier` (None
/// when there is none), and where the text of the token's parent node starts
/// and ends. The token is the one whose text holds the byte at the offset, or
/// at the end of the text the last one; None when the offset is past the end
/// or the tree has no text.
pub fn hover_node(root: &Node, offset: usize) -> (r: Option<(Option<&Node>, usize, usize)>)
    requires
        node_len(*root) <= usize::MAX,
    ensures
        r is Some <==> spec_hover(*root, offset as int) is Some,
        r matches Some((d, start, end)) ==> {
            let p = spec_hover(*root, offset as int)->0;
            &&& p.len() > 0
            &&& d is Some <==> described(p) is Some
            &&& d matches Some(x) ==> described(p) == Some(*x)
            &&& start == p.last().1
            &&& end == p.last().1 + node_len(p.last().0)
        },
{
    let total = node_byte_len(root);
    if offset > total || total == 0 {
        return None;
    }
    let o = if offset == total {
        offset - 1
    } else {
        offset
    };
    match hover_in(root, o, 0) {
        None => None,
        Some(v) => {
            let ghost p = spec_hover(*root, offset as int)->0;
            let last = v.len() - 1;
            let (parent, start) = v[last];
            let end = start + node_byte_len(parent);
            assert(p.last() == p[last as int]);
            let mut k: usize = v.len();
            let mut d: Option<&Node> = None;
            proof {
                assert(p.take(p.len() as int) =~= p);
            }
            while k > 0
                invariant
                    spec_hover(*root, offset as int) is Some,
                    p == spec_hover(*root, offset as int)->0,
                    p.len() > 0,
                    start == p.last().1,
                    end == p.last().1 + node_len(p.last().0),
                    k <= v@.len(),
                    v@.len() == p.len(),
                    forall|j: int| 0 <= j < v@.len() ==> *(#[trigger] v@[j]).0 == p[j].0,
                    described(p) == described(p.take(k as int)),
                    d is None,
                decreases k,
            {
                proof {
                    assert(p.take(k as int).drop_last() =~= p.take(k - 1));
                    assert(p.take(k as int).last() == p[k - 1]);
                }
                let (node, _) = v[k - 1];
                if node.kind != to_raw(SyntaxKind::Identifier) {
                    d = Some(node);
                    return Some((d, start, end));
                }
                k = k - 1;
            }
            proof {
                assert(p.take(0) =~= Seq::<(Node, int)>::empty());
            }
            Some((d, start, end))
        },
    }
}

// ---------------------------------------------------------------------------
// Finding the parts of a node
// ---------------------------------------------------------------------------

/// The child nodes among `s`, in order.
pub open spec fn child_nodes(s: Seq<Element>) -> Seq<Node>
    decreases s.len(),
{
    if s.len() == 0 {
        Seq::empty()
    } else {
        let rest = child_nodes(s.drop_last());
        match s.last() {
            Element::Node(n) => rest.push(n),
            Element::Token(_, _) => rest,
        }
    }
}

/// The child nodes of `kind` among `s`, in order.
pub open spec fn nodes_of_kind(s: Seq<Element>, kind: u16) -> Seq<Node>
    decreases s.len(),
{
    if s.len() == 0 {
        Seq::empty()
    } else {
        let rest = nodes_of_kind(s.drop_last(), kind);
        match s.last() {
            Element::Node(n) => if n.kind == kind {
                rest.push(n)
            } else {
                rest
            },
            Element::Token(_, _) => rest,
        }
    }
}

/// The first child node of `kind` among `s`.
pub open spec fn first_node_of_kind(s: Seq<Element>, kind: u16) -> Option<Node> {
    let all = nodes_of_kind(s, kind);
    if all.len() > 0 {
        Some(all[0])
    } else {
        None
    }
}

/// The texts of the child tokens of `kind` among `s`, in order.
pub open spec fn token_texts(s: Seq<Element>, kind: u16) -> Seq<Seq<char>>
    decreases s.len(),
{
    if s.len() == 0 {
        Seq::empty()
    } else {
        let rest = token_texts(s.drop_last(), kind);
        match s.last() {
            Element::Token(k, t) => if k == kind {
                rest.push(t@)
            } else {
                rest
            },
            Element::Node(_) => rest,
        }
    }
}

/// Whether a child token of `kind` is among `s`.
pub open spec fn has_token(s: Seq<Element>, kind: u16) -> bool {
    exists|i: int| 0 <= i < s.len() && (#[trigger] s[i] matches Element::Token(k, _) && k == kind)
}

/// Whether a child node or token of `kind` is among `s`.
pub open spec fn has_kind(s: Seq<Element>, kind: u16) -> bool {
    exists|i: int|
        0 <= i < s.len() && match #[trigger] s[i] {
            Element::Token(k, _) => k == kind,
            Element::Node(n) => n.kind == kind,
        }
}

/// The number of nodes in a tree.
pub open spec fn node_size(n: Node) -> nat
    decreases n,
{
    1 + elements_size(n.children@)
}

pub open spec fn elements_size(s: Seq<Element>) -> nat
    decreases s,
{
    if s.len() == 0 {
        0
    } else {
        let last = match s.last() {
            Element::Node(n) => node_size(n),
            Element::Token(_, _) => 0,
        };
        elements_size(s.drop_last()) + last
    }
}

impl Node {
    /// The child nodes of `kind`, in order.
    pub fn nodes_of_kind(&self, kind: u16) -> (r: Vec<&Node>)
        ensures
            r@.len() == nodes_of_kind(self.children@, kind).len(),
            forall|i: int| 0 <= i < r@.len() ==> *r@[i] == nodes_of_kind(self.children@, kind)[i],
    {
        let mut r: Vec<&Node> = Vec::new();
        let mut i: usize = 0;
        while i < self.children.len()
            invariant
                i <= self.children@.len(),
                r@.len() == nodes_of_kind(self.children@.take(i as int), kind).len(),
                forall|j: int|
                    0 <= j < r@.len() ==> *r@[j] == nodes_of_kind(self.children@.take(i as int), kind)[j],
            decreases self.children@.len() - i,
        {
            assert(self.children@.take(i + 1).drop_last() =~= self.children@.take(i as int));
            match &self.children[i] {
                Element::Node(n) => {
                    if n.kind == kind {
                        r.push(n);
                    }
                },
                Element::Token(_, _) => {},
            }
            i = i + 1;
        }
        assert(self.children@.take(self.children@.len() as int) =~= self.children@);
        r
    }

    /// The first child node of `kind`.
    pub fn first_node_of_kind(&self, kind: u16) -> (r: Option<&Node>)
        ensures
            match first_node_of_kind(self.children@, kind) {
                Some(n) => r matches Some(m) && *m == n,
                None => r is None,
            },
    {
        let all = self.nodes_of_kind(kind);
        if all.len() > 0 {
            Some(all[0])
        } else {
            None
        }
    }

    /// The child nodes, in order.
    pub fn child_nodes(&self) -> (r: Vec<&Node>)
        ensures
            r@.len() == child_nodes(self.children@).len(),
            forall|i: int| 0 <= i < r@.len() ==> *r@[i] == child_nodes(self.children@)[i],
    {
        let mut r: Vec<&Node> = Vec::new();
        let mut i: usize = 0;
        while i < self.children.len()
            invariant
                i <= self.children@.len(),
                r@.len() == child_nodes(self.children@.take(i as int)).len(),
                forall|j: int| 0 <= j < r@.len() ==> *r@[j] == child_nodes(self.children@.take(i as int))[j],
            decreases self.children@.len() - i,
        {
            assert(self.children@.take(i + 1).drop_last() =~= self.children@.take(i as int));
            match &self.children[i] {
                Element::Node(n) => {
                    r.push(n);
                },
                Element::Token(_, _) => {},
            }
            i = i + 1;
        }
        assert(self.children@.take(self.children@.len() as int) =~= self.children@);
        r
    }

    /// The texts of the child tokens of `kind`, in order.
    pub fn token_texts(&self, kind: u16) -> (r: Vec<String>)
        ensures
            r@.len() == token_texts(self.children@, kind).len(),
            forall|i: int| 0 <= i < r@.len() ==> r@[i]@ == token_texts(self.children@, kind)[i],
    {
        let mut r: Vec<String> = Vec::new();
        let mut i: usize = 0;
        while i < self.children.len()
            invariant
                i <= self.children@.len(),
                r@.len() == token_texts(self.children@.take(i as int), kind).len(),
                forall|j: int|
                    0 <= j < r@.len() ==> r@[j]@ == token_texts(self.children@.take(i as int), kind)[j],
            decreases self.children@.len() - i,
        {
            assert(self.children@.take(i + 1).drop_last() =~= self.children@.take(i as int));
            match &self.children[i] {
                Element::Token(k, t) => {
                    if *k == kind {
                        r.push(t.clone());
                    }
                },
                Element::Node(_) => {},
            }
            i = i + 1;
        }
        assert(self.children@.take(self.children@.len() as int) =~= self.children@);
        r
    }

    /// Whether a child token of `kind` is there.
    pub fn has_token(&self, kind: u16) -> (r: bool)
        ensures
            r == has_token(self.children@, kind),
    {
        let mut i: usize = 0;
        while i < self.children.len()
            invariant
                i <= self.children@.len(),
                forall|j: int|
                    0 <= j < i ==> !(#[trigger] self.children@[j] matches Element::Token(k, _) && k
                        == kind),
            decreases self.children@.len() - i,
        {
            match &self.children[i] {
                Element::Token(k, _) => {
                    if *k == kind {
                        return true;
                    }
                },
                Element::Node(_) => {},
            }
            i = i + 1;
        }
        false
    }

    /// Whether a child node or token of `kind` is there.
    pub fn has_kind(&self, kind: u16) -> (r: bool)
        ensures
            r == has_kind(self.children@, kind),
    {
        let mut i: usize = 0;
        while i < self.children.len()
            invariant
                i <= self.children@.len(),
                forall|j: int|
                    0 <= j < i ==> !match #[trigger] self.children@[j] {
                        Element::Token(k, _) => k == kind,
                        Element::Node(n) => n.kind == kind,
                    },
            decreases self.children@.len() - i,
        {
            match &self.children[i] {
                Element::Token(k, _) => {
                    if *k == kind {
                        return true;
                    }
                },
                Element::Node(n) => {
                    if n.kind == kind {
                        return true;
                    }
                },
            }
            i = i + 1;
        }
        false
    }
}

// ---------------------------------------------------------------------------
// Statements, expressions and operators
// ---------------------------------------------------------------------------

/// The node kinds that type inference takes as statements of a block: those
/// of `Statement`, and return statements. The `=` token's kind stands where
/// an assignment statement's node kind would be expected, so no node of the
/// generator's trees is taken as an assignment.
pub open spec fn is_statement_kind(k: u16) -> bool {
    k == spec_raw(SyntaxKind::Assign)
        || k == spec_raw(SyntaxKind::LocalAssignStatement)
        || k == spec_raw(SyntaxKind::FunctionCall)
        || k == spec_raw(SyntaxKind::DoBlock)
        || k == spec_raw(SyntaxKind::WhileLoop)
        || k == spec_raw(SyntaxKind::RepeatUntilLoop)
        || k == spec_raw(SyntaxKind::IfChain)
        || k == spec_raw(SyntaxKind::ForCountLoop)
        || k == spec_raw(SyntaxKind::ForInLoop)
        || k == spec_raw(SyntaxKind::FunctionDefinition)
        || k == spec_raw(SyntaxKind::ReturnStatement)
}

/// The node kinds that are expressions.
pub open spec fn is_expression_kind(k: u16) -> bool {
    k == spec_raw(SyntaxKind::UnaryExpression)
        || k == spec_raw(SyntaxKind::BinaryExpression)
        || k == spec_raw(SyntaxKind::GroupedExpression)
        || k == spec_raw(SyntaxKind::Identifier)
        || k == spec_raw(SyntaxKind::Literal)
        || k == spec_raw(SyntaxKind::FunctionDefinition)
        || k == spec_raw(SyntaxKind::TableConstructor)
}

#[derive(Clone, Copy, PartialEq, Eq, Structural)]
pub enum NodeClass {
    Statement,
    Expression,
}

pub open spec fn in_class(c: NodeClass, k: u16) -> bool {
    match c {
        NodeClass::Statement => is_statement_kind(k),
        NodeClass::Expression => is_expression_kind(k),
    }
}

/// Whether a node of kind `k` belongs to class `c`.
pub fn class_has(c: NodeClass, k: u16) -> (r: bool)
    ensures
        r == in_class(c, k),
{
    match c {
        NodeClass::Statement => {
            k == to_raw(SyntaxKind::Assign)
        || k == to_raw(SyntaxKind::LocalAssignStatement)
        || k == to_raw(SyntaxKind::FunctionCall)
        || k == to_raw(SyntaxKind::DoBlock)
        || k == to_raw(SyntaxKind::WhileLoop)
        || k == to_raw(SyntaxKind::RepeatUntilLoop)
        || k == to_raw(SyntaxKind::IfChain)
        || k == to_raw(SyntaxKind::ForCountLoop)
        || k == to_raw(SyntaxKind::ForInLoop)
        || k == to_raw(SyntaxKind::FunctionDefinition)
        || k == to_raw(SyntaxKind::ReturnStatement)
        },
        NodeClass::Expression => {
            k == to_raw(SyntaxKind::UnaryExpression)
        || k == to_raw(SyntaxKind::BinaryExpression)
        || k == to_raw(SyntaxKind::GroupedExpression)
        || k == to_raw(SyntaxKind::Identifier)
        || k == to_raw(SyntaxKind::Literal)
        || k == to_raw(SyntaxKind::FunctionDefinition)
        || k == to_raw(SyntaxKind::TableConstructor)
        },
    }
}

/// The child nodes of class `c` among `s`, in order.
pub open spec fn nodes_in_class(s: Seq<Element>, c: NodeClass) -> Seq<Node>
    decreases s.len(),
{
    if s.len() == 0 {
        Seq::empty()
    } else {
        let rest = nodes_in_class(s.drop_last(), c);
        match s.last() {
            Element::Node(n) => if in_class(c, n.kind) {
                rest.push(n)
            } else {
                rest
            },
            Element::Token(_, _) => rest,
        }
    }
}

/// The first child node of class `c` among `s`.
pub open spec fn first_in_class(s: Seq<Element>, c: NodeClass) -> Option<Node> {
    let all = nodes_in_class(s, c);
    if all.len() > 0 {
        Some(all[0])
    } else {
        None
    }
}

/// The number of nodes in a list of trees.
pub open spec fn nodes_size(s: Seq<Node>) -> nat
    decreases s.len(),
{
    if s.len() == 0 {
        0
    } else {
        nodes_size(s.drop_last()) + node_size(s.last())
    }
}

pub proof fn lemma_nodes_size(s: Seq<Node>)
    ensures
        forall|i: int| 0 <= i < s.len() ==> node_size(#[trigger] s[i]) <= nodes_size(s),
        s.len() > 0 ==> nodes_size(s.drop_first()) + node_size(s[0]) == nodes_size(s),
    decreases s.len(),
{
    if s.len() > 0 {
        lemma_nodes_size(s.drop_last());
        assert forall|i: int| 0 <= i < s.len() implies node_size(#[trigger] s[i]) <= nodes_size(s) by {
            if i < s.len() - 1 {
                assert(s.drop_last()[i] == s[i]);
            }
        }
        if s.len() > 1 {
            assert(s.drop_first().drop_last() =~= s.drop_last().drop_first());
            assert(s.drop_last()[0] == s[0]);
        } else {
            assert(s.drop_first().len() == 0);
        }
    }
}

pub proof fn lemma_class_size(s: Seq<Element>, c: NodeClass)
    ensures
        nodes_size(nodes_in_class(s, c)) <= elements_size(s),
    decreases s.len(),
{
    if s.len() > 0 {
        lemma_class_size(s.drop_last(), c);
        let rest = nodes_in_class(s.drop_last(), c);
        match s.last() {
            Element::Node(n) => {
                assert(rest.push(n).drop_last() =~= rest);
            },
            Element::Token(_, _) => {},
        }
    }
}

pub proof fn lemma_kind_size(s: Seq<Element>, k: u16)
    ensures
        nodes_size(nodes_of_kind(s, k)) <= elements_size(s),
    decreases s.len(),
{
    if s.len() > 0 {
        lemma_kind_size(s.drop_last(), k);
        let rest = nodes_of_kind(s.drop_last(), k);
        match s.last() {
            Element::Node(n) => {
                assert(rest.push(n).drop_last() =~= rest);
            },
            Element::Token(_, _) => {},
        }
    }
}

impl Node {
    /// What a node's children weigh: the classes and kinds of its child nodes
    /// together are smaller than the node.
    pub proof fn lemma_parts_smaller(&self)
        ensures
            forall|c: NodeClass| #[trigger] nodes_size(nodes_in_class(self.children@, c)) < node_size(*self),
            forall|k: u16| #[trigger] nodes_size(nodes_of_kind(self.children@, k)) < node_size(*self),
    {
        assert forall|c: NodeClass| #[trigger] nodes_size(nodes_in_class(self.children@, c)) < node_size(*self) by {
            lemma_class_size(self.children@, c);
        }
        assert forall|k: u16| #[trigger] nodes_size(nodes_of_kind(self.children@, k)) < node_size(*self) by {
            lemma_kind_size(self.children@, k);
        }
    }

    /// The child nodes of class `c`, in order.
    pub fn nodes_in_class(&self, c: NodeClass) -> (r: Vec<&Node>)
        ensures
            r@.len() == nodes_in_class(self.children@, c).len(),
            forall|i: int| 0 <= i < r@.len() ==> *r@[i] == nodes_in_class(self.children@, c)[i],
    {
        let mut r: Vec<&Node> = Vec::new();
        let mut i: usize = 0;
        while i < self.children.len()
            invariant
                i <= self.children@.len(),
                r@.len() == nodes_in_class(self.children@.take(i as int), c).len(),
                forall|j: int|
                    0 <= j < r@.len() ==> *r@[j] == nodes_in_class(self.children@.take(i as int), c)[j],
            decreases self.children@.len() - i,
        {
            assert(self.children@.take(i + 1).drop_last() =~= self.children@.take(i as int));
            match &self.children[i] {
                Element::Node(n) => {
                    if class_has(c, n.kind) {
                        r.push(n);
                    }
                },
                Element::Token(_, _) => {},
            }
            i = i + 1;
        }
        assert(self.children@.take(self.children@.len() as int) =~= self.children@);
        r
    }

    /// The first child node of class `c`.
    pub fn first_in_class(&self, c: NodeClass) -> (r: Option<&Node>)
        ensures
            match first_in_class(self.children@, c) {
                Some(n) => r matches Some(m) && *m == n,
                None => r is None,
            },
    {
        let all = self.nodes_in_class(c);
        if all.len() > 0 {
            Some(all[0])
        } else {
            None
        }
    }
}

#[derive(Debug, Clone, Copy, PartialEq, Eq, Structural)]
pub enum Operator {
    Or,
    And,
    Not,
    LessThan,
    GreaterThan,
    LessThanOrEquals,
    GreaterThanOrEquals,
    NotEquals,
    Equals,
    Concatenate,
    Add,
    Subtract,
    Multiply,
    Divide,
    Modulo,
    ArrayLength,
    Hat,
    NoOperator,
}

/// The kind of a child node or token.
pub open spec fn element_kind(e: Element) -> u16 {
    match e {
        Element::Node(n) => n.kind,
        Element::Token(k, _) => k,
    }
}

/// The operator that a child of kind `k` of a binary expression gives.
pub open spec fn spec_binary_operator(k: u16) -> Option<Operator> {
    if k == spec_raw(SyntaxKind::OrKeyword) {
        Some(Operator::Or)
    } else if k == spec_raw(SyntaxKind::AndKeyword) {
        Some(Operator::And)
    } else if k == spec_raw(SyntaxKind::LessThan) {
        Some(Operator::LessThan)
    } else if k == spec_raw(SyntaxKind::GreaterThan) {
        Some(Operator::GreaterThan)
    } else if k == spec_raw(SyntaxKind::LessThanOrEquals) {
        Some(Operator::LessThanOrEquals)
    } else if k == spec_raw(SyntaxKind::GreaterThanOrEquals) {
        Some(Operator::GreaterThanOrEquals)
    } else if k == spec_raw(SyntaxKind::NotEqualsBoolean) {
        Some(Operator::NotEquals)
    } else if k == spec_raw(SyntaxKind::EqualsBoolean) {
        Some(Operator::Equals)
    } else if k == spec_raw(SyntaxKind::DoubleDot) {
        Some(Operator::Concatenate)
    } else if k == spec_raw(SyntaxKind::Plus) {
        Some(Operator::Add)
    } else if k == spec_raw(SyntaxKind::Minus) {
        Some(Operator::Subtract)
    } else if k == spec_raw(SyntaxKind::Asterisk) {
        Some(Operator::Multiply)
    } else if k == spec_raw(SyntaxKind::Slash) {
        Some(Operator::Divide)
    } else if k == spec_raw(SyntaxKind::Modulo) {
        Some(Operator::Modulo)
    } else {
        None
    }
}

/// The operator that a child of kind `k` of a unary expression gives.
pub open spec fn spec_unary_operator(k: u16) -> Option<Operator> {
    if k == spec_raw(SyntaxKind::NotKeyword) {
        Some(Operator::Not)
    } else if k == spec_raw(SyntaxKind::Minus) {
        Some(Operator::Subtract)
    } else if k == spec_raw(SyntaxKind::Hash) {
        Some(Operator::ArrayLength)
    } else if k == spec_raw(SyntaxKind::Hat) {
        Some(Operator::Hat)
    } else {
        None
    }
}

/// The operator of the first child that gives one, or `NoOperator`.
pub open spec fn first_operator(s: Seq<Element>, unary: bool) -> Operator
    decreases s.len(),
{
    if s.len() == 0 {
        Operator::NoOperator
    } else {
        let k = element_kind(s[0]);
        match if unary { spec_unary_operator(k) } else { spec_binary_operator(k) } {
            Some(o) => o,
            None => first_operator(s.drop_first(), unary),
        }
    }
}

/// The raw kinds of the tokens that name a binary operator.
pub open spec fn is_binary_operator_kind(k: u16) -> bool {
    ||| k == spec_raw(SyntaxKind::OrKeyword) || k == spec_raw(SyntaxKind::AndKeyword)
    ||| k == spec_raw(SyntaxKind::LessThan) || k == spec_raw(SyntaxKind::GreaterThan)
    ||| k == spec_raw(SyntaxKind::LessThanOrEquals) || k == spec_raw(SyntaxKind::GreaterThanOrEquals)
    ||| k == spec_raw(SyntaxKind::NotEqualsBoolean) || k == spec_raw(SyntaxKind::EqualsBoolean)
    ||| k == spec_raw(SyntaxKind::DoubleDot) || k == spec_raw(SyntaxKind::Plus)
    ||| k == spec_raw(SyntaxKind::Minus) || k == spec_raw(SyntaxKind::Asterisk)
    ||| k == spec_raw(SyntaxKind::Slash) || k == spec_raw(SyntaxKind::Modulo)
}

/// The raw kinds of the tokens that name a unary operator.
pub open spec fn is_unary_operator_kind(k: u16) -> bool {
    ||| k == spec_raw(SyntaxKind::NotKeyword) || k == spec_raw(SyntaxKind::Minus)
    ||| k == spec_raw(SyntaxKind::Hash) || k == spec_raw(SyntaxKind::Hat)
}

/// Each binary operator token names its own operator: `or`, `and`, the six
/// comparisons, `..`, `+`, `-`, `*`, `/` and `%`; no other kind names one.
pub proof fn law_binary_operator_names(k: u16)
    ensures
        k == spec_raw(SyntaxKind::OrKeyword) ==> spec_binary_operator(k) == Some(Operator::Or),
        k == spec_raw(SyntaxKind::AndKeyword) ==> spec_binary_operator(k) == Some(Operator::And),
        k == spec_raw(SyntaxKind::LessThan) ==> spec_binary_operator(k) == Some(Operator::LessThan),
        k == spec_raw(SyntaxKind::GreaterThan) ==> spec_binary_operator(k) == Some(Operator::GreaterThan),
        k == spec_raw(SyntaxKind::LessThanOrEquals) ==> spec_binary_operator(k) == Some(Operator::LessThanOrEquals),
        k == spec_raw(SyntaxKind::GreaterThanOrEquals) ==> spec_binary_operator(k) == Some(Operator::GreaterThanOrEquals),
        k == spec_raw(SyntaxKind::NotEqualsBoolean) ==> spec_binary_operator(k) == Some(Operator::NotEquals),
        k == spec_raw(SyntaxKind::EqualsBoolean) ==> spec_binary_operator(k) == Some(Operator::Equals),
        k == spec_raw(SyntaxKind::DoubleDot) ==> spec_binary_operator(k) == Some(Operator::Concatenate),
        k == spec_raw(SyntaxKind::Plus) ==> spec_binary_operator(k) == Some(Operator::Add),
        k == spec_raw(SyntaxKind::Minus) ==> spec_binary_operator(k) == Some(Operator::Subtract),
        k == spec_raw(SyntaxKind::Asterisk) ==> spec_binary_operator(k) == Some(Operator::Multiply),
        k == spec_raw(SyntaxKind::Slash) ==> spec_binary_operator(k) == Some(Operator::Divide),
        k == spec_raw(SyntaxKind::Modulo) ==> spec_binary_operator(k) == Some(Operator::Modulo),
        spec_binary_operator(k) is Some <==> is_binary_operator_kind(k),
{
}

/// Distinct operator tokens name distinct binary operators.
pub proof fn law_binary_operator_injective(k1: u16, k2: u16)
    requires
        spec_binary_operator(k1) is Some,
        spec_binary_operator(k1) == spec_binary_operator(k2),
    ensures
        k1 == k2,
{
}

/// `not` names negation, `-` subtraction (the sign), `#` the length and `^`
/// the power; no other kind names a unary operator, and distinct tokens name
/// distinct operators.
pub proof fn law_unary_operator_names(k: u16, k2: u16)
    ensures
        k == spec_raw(SyntaxKind::NotKeyword) ==> spec_unary_operator(k) == Some(Operator::Not),
        k == spec_raw(SyntaxKind::Minus) ==> spec_unary_operator(k) == Some(Operator::Subtract),
        k == spec_raw(SyntaxKind::Hash) ==> spec_unary_operator(k) == Some(Operator::ArrayLength),
        k == spec_raw(SyntaxKind::Hat) ==> spec_unary_operator(k) == Some(Operator::Hat),
        spec_unary_operator(k) is Some <==> is_unary_operator_kind(k),
        spec_unary_operator(k) is Some && spec_unary_operator(k) == spec_unary_operator(k2) ==> k == k2,
{
}

/// The operator of a node is the one that its first operator child names.
pub proof fn law_first_operator(s: Seq<Element>, i: int, unary: bool)
    requires
        0 <= i < s.len(),
        forall|j: int|
            0 <= j < i ==> !(if unary { is_unary_operator_kind(element_kind(#[trigger] s[j])) } else {
                is_binary_operator_kind(element_kind(s[j]))
            }),
        if unary { is_unary_operator_kind(element_kind(s[i])) } else { is_binary_operator_kind(element_kind(s[i])) },
    ensures
        first_operator(s, unary) == if unary {
            spec_unary_operator(element_kind(s[i]))->0
        } else {
            spec_binary_operator(element_kind(s[i]))->0
        },
    decreases i,
{
    let k = element_kind(s[0]);
    law_binary_operator_names(k);
    law_unary_operator_names(k, k);
    if i > 0 {
        let t = s.drop_first();
        assert forall|j: int| 0 <= j < i - 1 implies !(if unary { is_unary_operator_kind(element_kind(#[trigger] t[j])) } else {
            is_binary_operator_kind(element_kind(t[j]))
        }) by {
            assert(t[j] == s[j + 1]);
        }
        assert(t[i - 1] == s[i]);
        law_first_operator(t, i - 1, unary);
    } else {
        let ki = element_kind(s[i]);
        law_binary_operator_names(ki);
        law_unary_operator_names(ki, ki);
    }
}

fn binary_operator_of(k: u16) -> (r: Option<Operator>)
    ensures
        r == spec_binary_operator(k),
{
    if k == to_raw(SyntaxKind::OrKeyword) {
        Some(Operator::Or)
    } else if k == to_raw(SyntaxKind::AndKeyword) {
        Some(Operator::And)
    } else if k == to_raw(SyntaxKind::LessThan) {
        Some(Operator::LessThan)
    } else if k == to_raw(SyntaxKind::GreaterThan) {
        Some(Operator::GreaterThan)
    } else if k == to_raw(SyntaxKind::LessThanOrEquals) {
        Some(Operator::LessThanOrEquals)
    } else if k == to_raw(SyntaxKind::GreaterThanOrEquals) {
        Some(Operator::GreaterThanOrEquals)
    } else if k == to_raw(SyntaxKind::NotEqualsBoolean) {
        Some(Operator::NotEquals)
    } else if k == to_raw(SyntaxKind::EqualsBoolean) {
        Some(Operator::Equals)
    } else if k == to_raw(SyntaxKind::DoubleDot) {
        Some(Operator::Concatenate)
    } else if k == to_raw(SyntaxKind::Plus) {
        Some(Operator::Add)
    } else if k == to_raw(SyntaxKind::Minus) {
        Some(Operator::Subtract)
    } else if k == to_raw(SyntaxKind::Asterisk) {
        Some(Operator::Multiply)
    } else if k == to_raw(SyntaxKind::Slash) {
        Some(Operator::Divide)
    } else if k == to_raw(SyntaxKind::Modulo) {
        Some(Operator::Modulo)
    } else {
        None
    }
}

fn unary_operator_of(k: u16) -> (r: Option<Operator>)
    ensures
        r == spec_unary_operator(k),
{
    if k == to_raw(SyntaxKind::NotKeyword) {
        Some(Operator::Not)
    } else if k == to_raw(SyntaxKind::Minus) {
        Some(Operator::Subtract)
    } else if k == to_raw(SyntaxKind::Hash) {
        Some(Operator::ArrayLength)
    } else if k == to_raw(SyntaxKind::Hat) {
        Some(Operator::Hat)
    } else {
        None
    }
}

/// The operator of a binary or (with `unary`) unary expression node: that of
/// its first child that gives one.
pub fn operator_kind(n: &Node, unary: bool) -> (r: Operator)
    ensures
        r == first_operator(n.children@, unary),
{
    let mut i: usize = 0;
    assert(n.children@.skip(0) =~= n.children@);
    while i < n.children.len()
        invariant
            i <= n.children@.len(),
            first_operator(n.children@, unary) == first_operator(n.children@.skip(i as int), unary),
        decreases n.children@.len() - i,
    {
        assert(n.children@.skip(i as int).drop_first() =~= n.children@.skip(i + 1));
        let k = match &n.children[i] {
            Element::Node(c) => c.kind,
            Element::Token(k, _) => *k,
        };
        let found = if unary { unary_operator_of(k) } else { binary_operator_of(k) };
        match found {
            Some(o) => {
                return o;
            },
            None => {},
        }
        i = i + 1;
    }
    Operator::NoOperator
}

} // verus!
