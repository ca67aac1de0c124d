//! Type inference over the syntax tree: what type each name holds, through
//! nested scopes, with globals behind them.
//!
//! A table type holds its fields as a list of (name, type) pairs; what a table
//! means is the map from names to types that the list gives, a later pair for
//! a name replacing an earlier one. Two types are equal when their views are:
//! the order in which a table's fields were added does not matter.
use vstd::prelude::*;
use crate::ast::{
    child_nodes, element_kind, first_in_class, first_node_of_kind, first_operator, has_kind,
    has_token, node_size, nodes_in_class, nodes_of_kind, nodes_size, token_texts, lemma_nodes_size,
    Element, Node, NodeClass, Operator, operator_kind, tree_of, walk_of, green_walk,
    is_binary_operator_kind, is_unary_operator_kind, law_binary_operator_names,
    law_first_operator, law_unary_operator_names,
};
use rowan::GreenNode;
use crate::green_builder::green_kind;
use crate::syntax::syntax::{spec_raw, to_raw, SyntaxKind};

verus! {

pub enum ValueType {
    Nil,
    Boolean,
    Number,
    String,
    Function { params: Vec<ValueType>, results: Vec<ValueType> },
    Table { fields: Vec<(String, ValueType)> },
    Union(Vec<ValueType>),
    Unknown,
}

/// What a type means.
pub enum TypeView {
    Nil,
    Boolean,
    Number,
    String,
    Function { params: Seq<TypeView>, results: Seq<TypeView> },
    Table { fields: Map<Seq<char>, TypeView> },
    Union(Seq<TypeView>),
    Unknown,
}

impl ValueType {
    pub open spec fn view(&self) -> TypeView
        decreases self,
    {
        match self {
            ValueType::Nil => TypeView::Nil,
            ValueType::Boolean => TypeView::Boolean,
            ValueType::Number => TypeView::Number,
            ValueType::String => TypeView::String,
            ValueType::Function { params, results } => TypeView::Function {
                params: views(params@),
                results: views(results@),
            },
            ValueType::Table { fields } => TypeView::Table { fields: fields_view(fields@) },
            ValueType::Union(types) => TypeView::Union(views(types@)),
            ValueType::Unknown => TypeView::Unknown,
        }
    }
}

/// The views of a list of types.
pub open spec fn views(s: Seq<ValueType>) -> Seq<TypeView>
    decreases s,
{
    if s.len() == 0 {
        Seq::empty()
    } else {
        views(s.drop_last()).push(s.last().view())
    }
}

/// The map that a list of fields gives: a later pair for a name replaces an
/// earlier one.
pub open spec fn fields_view(s: Seq<(String, ValueType)>) -> Map<Seq<char>, TypeView>
    decreases s,
{
    if s.len() == 0 {
        Map::empty()
    } else {
        fields_view(s.drop_last()).insert(s.last().0@, s.last().1.view())
    }
}

pub proof fn lemma_views(s: Seq<ValueType>)
    ensures
        views(s).len() == s.len(),
        forall|i: int| 0 <= i < s.len() ==> #[trigger] views(s)[i] == s[i].view(),
    decreases s.len(),
{
    if s.len() > 0 {
        lemma_views(s.drop_last());
        assert forall|i: int| 0 <= i < s.len() implies #[trigger] views(s)[i] == s[i].view() by {
            if i < s.len() - 1 {
                assert(s.drop_last()[i] == s[i]);
            }
        }
    }
}

/// The index of the last field named `k`, if any.
pub open spec fn last_index(s: Seq<(String, ValueType)>, k: Seq<char>) -> Option<int>
    decreases s.len(),
{
    if s.len() == 0 {
        None
    } else if s.last().0@ == k {
        Some(s.len() - 1)
    } else {
        last_index(s.drop_last(), k)
    }
}

pub proof fn lemma_fields_view(s: Seq<(String, ValueType)>, k: Seq<char>)
    ensures
        fields_view(s).dom().finite(),
        match last_index(s, k) {
            Some(i) => 0 <= i < s.len() && s[i].0@ == k && fields_view(s).dom().contains(k)
                && fields_view(s)[k] == s[i].1.view() && forall|j: int|
                i < j < s.len() ==> s[j].0@ != k,
            None => !fields_view(s).dom().contains(k) && forall|j: int|
                0 <= j < s.len() ==> s[j].0@ != k,
        },
    decreases s.len(),
{
    if s.len() > 0 {
        lemma_fields_view(s.drop_last(), k);
        if s.last().0@ != k {
            match last_index(s.drop_last(), k) {
                Some(i) => {
                    assert(s.drop_last()[i] == s[i]);
                    assert forall|j: int| i < j < s.len() implies s[j].0@ != k by {
                        if j < s.len() - 1 {
                            assert(s.drop_last()[j] == s[j]);
                        }
                    }
                },
                None => {
                    assert forall|j: int| 0 <= j < s.len() implies s[j].0@ != k by {
                        if j < s.len() - 1 {
                            assert(s.drop_last()[j] == s[j]);
                        }
                    }
                },
            }
        }
    }
}

/// The names in the map are the names of the fields.
pub proof fn lemma_fields_dom(s: Seq<(String, ValueType)>)
    ensures
        forall|k: Seq<char>|
            #[trigger] fields_view(s).dom().contains(k) <==> exists|i: int|
                0 <= i < s.len() && s[i].0@ == k,
{
    assert forall|k: Seq<char>| #[trigger] fields_view(s).dom().contains(k) <==> exists|i: int|
        0 <= i < s.len() && s[i].0@ == k by {
        lemma_fields_view(s, k);
        if fields_view(s).dom().contains(k) {
            let i = last_index(s, k).unwrap();
            assert(0 <= i < s.len() && s[i].0@ == k);
        }
    }
}

/// Whether two character sequences of strings are the same.
fn same_text(a: &String, b: &String) -> (r: bool)
    ensures
        r == (a@ == b@),
{
    a.eq(b)
}

/// The index of the last field named `name`.
fn find_last(fields: &Vec<(String, ValueType)>, name: &String) -> (r: Option<usize>)
    ensures
        match r {
            Some(i) => last_index(fields@, name@) == Some(i as int),
            None => last_index(fields@, name@) is None,
        },
{
    let mut i = fields.len();
    assert(fields@.take(i as int) =~= fields@);
    while i > 0
        invariant
            i <= fields@.len(),
            last_index(fields@, name@) == last_index(fields@.take(i as int), name@),
        decreases i,
    {
        assert(fields@.take(i as int).drop_last() =~= fields@.take(i - 1));
        if same_text(&fields[i - 1].0, name) {
            return Some(i - 1);
        }
        i = i - 1;
    }
    None
}

impl ValueType {
    /// A copy with the same view.
    pub fn copy(&self) -> (r: ValueType)
        ensures
            r.view() == self.view(),
        decreases self,
    {
        match self {
            ValueType::Nil => ValueType::Nil,
            ValueType::Boolean => ValueType::Boolean,
            ValueType::Number => ValueType::Number,
            ValueType::String => ValueType::String,
            ValueType::Function { params, results } => ValueType::Function {
                params: copy_all(params),
                results: copy_all(results),
            },
            ValueType::Table { fields } => ValueType::Table { fields: copy_fields(fields) },
            ValueType::Union(types) => ValueType::Union(copy_all(types)),
            ValueType::Unknown => ValueType::Unknown,
        }
    }

    /// Whether two types are equal: the same view.
    pub fn same(&self, other: &ValueType) -> (r: bool)
        ensures
            r == (self.view() == other.view()),
        decreases self,
    {
        match (self, other) {
            (ValueType::Nil, ValueType::Nil) => true,
            (ValueType::Boolean, ValueType::Boolean) => true,
            (ValueType::Number, ValueType::Number) => true,
            (ValueType::String, ValueType::String) => true,
            (ValueType::Unknown, ValueType::Unknown) => true,
            (
                ValueType::Function { params: p1, results: r1 },
                ValueType::Function { params: p2, results: r2 },
            ) => same_all(p1, p2) && same_all(r1, r2),
            (ValueType::Union(a), ValueType::Union(b)) => same_all(a, b),
            (ValueType::Table { fields: a }, ValueType::Table { fields: b }) => same_fields(a, b),
            _ => false,
        }
    }
}

/// Two lists of types whose views agree one by one have the same views.
pub proof fn lemma_views_ext(a: Seq<ValueType>, b: Seq<ValueType>)
    requires
        a.len() == b.len(),
        forall|i: int| 0 <= i < a.len() ==> #[trigger] a[i].view() == b[i].view(),
    ensures
        views(a) == views(b),
{
    lemma_views(a);
    lemma_views(b);
    assert(views(a) =~= views(b));
}

/// Two field lists that agree one by one, by name and view, give the same map.
pub proof fn lemma_fields_ext(a: Seq<(String, ValueType)>, b: Seq<(String, ValueType)>)
    requires
        a.len() == b.len(),
        forall|i: int| 0 <= i < a.len() ==> #[trigger] a[i].0@ == b[i].0@ && a[i].1.view() == b[i].1.view(),
    ensures
        fields_view(a) == fields_view(b),
    decreases a.len(),
{
    if a.len() > 0 {
        assert forall|i: int| 0 <= i < a.len() - 1 implies #[trigger] a.drop_last()[i].0@ == b.drop_last()[i].0@
            && a.drop_last()[i].1.view() == b.drop_last()[i].1.view() by {
            assert(a.drop_last()[i] == a[i] && b.drop_last()[i] == b[i]);
        }
        lemma_fields_ext(a.drop_last(), b.drop_last());
        assert(a.last() == a[a.len() - 1] && b.last() == b[b.len() - 1]);
    }
}

fn copy_all(s: &Vec<ValueType>) -> (r: Vec<ValueType>)
    ensures
        views(r@) == views(s@),
    decreases s,
{
    let mut r: Vec<ValueType> = Vec::new();
    let mut i: usize = 0;
    while i < s.len()
        invariant
            i <= s@.len(),
            r@.len() == i,
            forall|j: int| 0 <= j < i ==> #[trigger] r@[j].view() == s@[j].view(),
        decreases s@.len() - i,
    {
        let c = s[i].copy();
        r.push(c);
        i = i + 1;
    }
    proof {
        lemma_views_ext(r@, s@);
    }
    r
}

fn copy_fields(s: &Vec<(String, ValueType)>) -> (r: Vec<(String, ValueType)>)
    ensures
        fields_view(r@) == fields_view(s@),
    decreases s,
{
    let mut r: Vec<(String, ValueType)> = Vec::new();
    let mut i: usize = 0;
    while i < s.len()
        invariant
            i <= s@.len(),
            r@.len() == i,
            forall|j: int| 0 <= j < i ==> #[trigger] r@[j].0@ == s@[j].0@ && r@[j].1.view() == s@[j].1.view(),
        decreases s@.len() - i,
    {
        let name = s[i].0.clone();
        let t = s[i].1.copy();
        r.push((name, t));
        i = i + 1;
    }
    proof {
        lemma_fields_ext(r@, s@);
    }
    r
}

fn same_all(a: &Vec<ValueType>, b: &Vec<ValueType>) -> (r: bool)
    ensures
        r == (views(a@) == views(b@)),
    decreases a,
{
    proof {
        lemma_views(a@);
        lemma_views(b@);
    }
    if a.len() != b.len() {
        return false;
    }
    let mut i: usize = 0;
    while i < a.len()
        invariant
            i <= a@.len(),
            a@.len() == b@.len(),
            views(a@).len() == a@.len(),
            views(b@).len() == b@.len(),
            forall|j: int| 0 <= j < a@.len() ==> #[trigger] views(a@)[j] == a@[j].view(),
            forall|j: int| 0 <= j < b@.len() ==> #[trigger] views(b@)[j] == b@[j].view(),
            forall|j: int| 0 <= j < i ==> #[trigger] a@[j].view() == b@[j].view(),
        decreases a@.len() - i,
    {
        if !a[i].same(&b[i]) {
            assert(views(a@)[i as int] != views(b@)[i as int]);
            return false;
        }
        i = i + 1;
    }
    proof {
        lemma_views_ext(a@, b@);
    }
    true
}

fn same_fields(a: &Vec<(String, ValueType)>, b: &Vec<(String, ValueType)>) -> (r: bool)
    ensures
        r == (fields_view(a@) == fields_view(b@)),
    decreases a,
{
    proof {
        lemma_fields_dom(a@);
        lemma_fields_dom(b@);
    }
    let mut i: usize = 0;
    while i < a.len()
        invariant
            i <= a@.len(),
            forall|k: Seq<char>|
                #[trigger] fields_view(a@).dom().contains(k) <==> exists|j: int|
                    0 <= j < a@.len() && a@[j].0@ == k,
            forall|k: Seq<char>|
                #[trigger] fields_view(b@).dom().contains(k) <==> exists|j: int|
                    0 <= j < b@.len() && b@[j].0@ == k,
            forall|j: int|
                0 <= j < i ==> #[trigger] fields_view(b@).dom().contains(a@[j].0@) && fields_view(
                    b@,
                )[a@[j].0@] == fields_view(a@)[a@[j].0@],
        decreases a@.len() - i,
    {
        let ghost k = a@[i as int].0@;
        proof {
            lemma_fields_view(a@, k);
            lemma_fields_view(b@, k);
        }
        match find_last(b, &a[i].0) {
            None => {
                assert(fields_view(a@).dom().contains(k));
                return false;
            },
            Some(jb) => {
                assert(a@[i as int].0@ == k);
                let ia = find_last(a, &a[i].0).unwrap();
                assert(fields_view(b@)[k] == b@[jb as int].1.view());
                assert(fields_view(a@)[k] == a@[ia as int].1.view());
                if !a[ia].1.same(&b[jb].1) {
                    return false;
                }
                assert(fields_view(b@).dom().contains(k));
                assert(fields_view(b@)[k] == fields_view(a@)[k]);
            },
        }
        assert(fields_view(b@).dom().contains(a@[i as int].0@) && fields_view(b@)[a@[i as int].0@]
            == fields_view(a@)[a@[i as int].0@]);
        assert forall|j: int| 0 <= j < i + 1 implies #[trigger] fields_view(b@).dom().contains(a@[j].0@)
            && fields_view(b@)[a@[j].0@] == fields_view(a@)[a@[j].0@] by {
            if j < i {
            } else {
                assert(j == i);
            }
        }
        i = i + 1;
    }
    let mut j: usize = 0;
    while j < b.len()
        invariant
            j <= b@.len(),
            forall|k: Seq<char>|
                #[trigger] fields_view(a@).dom().contains(k) <==> exists|x: int|
                    0 <= x < a@.len() && a@[x].0@ == k,
            forall|k: Seq<char>|
                #[trigger] fields_view(b@).dom().contains(k) <==> exists|x: int|
                    0 <= x < b@.len() && b@[x].0@ == k,
            forall|x: int|
                0 <= x < a@.len() ==> #[trigger] fields_view(b@).dom().contains(a@[x].0@) && fields_view(
                    b@,
                )[a@[x].0@] == fields_view(a@)[a@[x].0@],
            forall|x: int| 0 <= x < j ==> #[trigger] fields_view(a@).dom().contains(b@[x].0@),
        decreases b@.len() - j,
    {
        let ghost k = b@[j as int].0@;
        proof {
            lemma_fields_view(a@, k);
        }
        if find_last(a, &b[j].0).is_none() {
            assert(fields_view(b@).dom().contains(k));
            return false;
        }
        j = j + 1;
    }
    proof {
        assert forall|k: Seq<char>| fields_view(a@).dom().contains(k) implies fields_view(b@).dom().contains(k)
            && fields_view(b@)[k] == fields_view(a@)[k] by {
            let x = choose|x: int| 0 <= x < a@.len() && a@[x].0@ == k;
            assert(fields_view(b@).dom().contains(a@[x].0@));
        }
        assert forall|k: Seq<char>| fields_view(b@).dom().contains(k) implies fields_view(a@).dom().contains(k) by {
            let x = choose|x: int| 0 <= x < b@.len() && b@[x].0@ == k;
            assert(fields_view(a@).dom().contains(b@[x].0@));
        }
        assert(fields_view(a@) =~= fields_view(b@));
    }
    true
}

/// Replacing the last field named `k` is the same, in the map, as adding `k`.
pub proof fn lemma_fields_update(s: Seq<(String, ValueType)>, i: int, f: (String, ValueType))
    requires
        last_index(s, f.0@) == Some(i),
    ensures
        fields_view(s.update(i, f)) == fields_view(s).insert(f.0@, f.1.view()),
    decreases s.len(),
{
    let k = f.0@;
    lemma_fields_view(s, k);
    if i == s.len() - 1 {
        assert(s.update(i, f).drop_last() =~= s.drop_last());
        assert(fields_view(s).insert(k, f.1.view()) =~= fields_view(s.drop_last()).insert(k, f.1.view()));
    } else {
        assert(s.last().0@ != k);
        assert(s.update(i, f).drop_last() =~= s.drop_last().update(i, f));
        lemma_fields_update(s.drop_last(), i, f);
        assert(fields_view(s.update(i, f)) =~= fields_view(s).insert(k, f.1.view()));
    }
}

/// Sets the field `name` to `t`: replaces the last field of that name, or adds one.
fn set_field(fields: &mut Vec<(String, ValueType)>, name: String, t: ValueType)
    ensures
        fields_view(final(fields)@) == fields_view(old(fields)@).insert(name@, t.view()),
{
    match find_last(fields, &name) {
        Some(i) => {
            proof {
                lemma_fields_view(fields@, name@);
                lemma_fields_update(fields@, i as int, (name, t));
            }
            fields.set(i, (name, t));
        },
        None => {
            fields.push((name, t));
            assert(fields@.drop_last() =~= old(fields)@);
        },
    }
}

/// A copy of the type of the field `name`, if there is one.
fn get_field(fields: &Vec<(String, ValueType)>, name: &String) -> (r: Option<ValueType>)
    ensures
        match r {
            Some(t) => fields_view(fields@).dom().contains(name@) && t.view() == fields_view(
                fields@,
            )[name@],
            None => !fields_view(fields@).dom().contains(name@),
        },
{
    proof {
        lemma_fields_view(fields@, name@);
    }
    match find_last(fields, name) {
        Some(i) => Some(fields[i].1.copy()),
        None => None,
    }
}

struct Scope {
    parent: Option<usize>,
    locals: Vec<(String, ValueType)>,
}

pub struct TypeEnvironment {
    scopes: Vec<Scope>,
    current_scope: usize,
    globals: Vec<(String, ValueType)>,
}

/// What a scope means: the scope it is nested in, and its local names.
pub struct ScopeView {
    pub parent: Option<int>,
    pub locals: Map<Seq<char>, TypeView>,
}

/// What an environment means: its scopes, the current one, and the globals.
pub struct EnvView {
    pub scopes: Seq<ScopeView>,
    pub current: int,
    pub globals: Map<Seq<char>, TypeView>,
}

/// Scope 0 is the outermost one; every other scope is nested in one that was
/// made before it; the current scope is one of them.
pub open spec fn env_ok(e: EnvView) -> bool {
    &&& e.scopes.len() > 0
    &&& 0 <= e.current < e.scopes.len()
    &&& e.scopes[0].parent is None
    &&& forall|i: int|
        0 <= i < e.scopes.len() ==> match #[trigger] e.scopes[i].parent {
            Some(p) => 0 <= p < i,
            None => i == 0,
        }
}

/// The type of `name` seen from scope `idx`: its own local, else what its
/// parent scope sees, else the global, else unknown.
pub open spec fn lookup_from(e: EnvView, idx: int, name: Seq<char>) -> TypeView
    decreases idx,
{
    if 0 <= idx < e.scopes.len() && e.scopes[idx].locals.dom().contains(name) {
        e.scopes[idx].locals[name]
    } else {
        match parent_of(e, idx) {
            Some(p) => lookup_from(e, p, name),
            None => global_type(e, name),
        }
    }
}

/// The scope that scope `idx` is nested in, when it is an earlier one.
pub open spec fn parent_of(e: EnvView, idx: int) -> Option<int> {
    if 0 <= idx < e.scopes.len() {
        match e.scopes[idx].parent {
            Some(p) => if 0 <= p < idx {
                Some(p)
            } else {
                None
            },
            None => None,
        }
    } else {
        None
    }
}

/// The type of the global `name`, or unknown.
pub open spec fn global_type(e: EnvView, name: Seq<char>) -> TypeView {
    if e.globals.dom().contains(name) {
        e.globals[name]
    } else {
        TypeView::Unknown
    }
}

/// The scope, seen from scope `idx`, that holds a local `name`: its own, else
/// the one its parent finds.
pub open spec fn defining_scope(e: EnvView, idx: int, name: Seq<char>) -> Option<int>
    decreases idx,
{
    if 0 <= idx < e.scopes.len() && e.scopes[idx].locals.dom().contains(name) {
        Some(idx)
    } else {
        match parent_of(e, idx) {
            Some(p) => defining_scope(e, p, name),
            None => None,
        }
    }
}

/// The type of `name` in the current scope.
pub open spec fn env_lookup(e: EnvView, name: Seq<char>) -> TypeView {
    lookup_from(e, e.current, name)
}

/// The environment with `name` set to `t` among the locals of scope `idx`.
pub open spec fn with_local(e: EnvView, idx: int, name: Seq<char>, t: TypeView) -> EnvView {
    EnvView {
        scopes: e.scopes.update(
            idx,
            ScopeView { parent: e.scopes[idx].parent, locals: e.scopes[idx].locals.insert(name, t) },
        ),
        ..e
    }
}

/// The environment with `name` updated where it is defined: in the nearest
/// scope that holds it, else among the globals.
pub open spec fn env_update(e: EnvView, name: Seq<char>, t: TypeView) -> EnvView {
    match defining_scope(e, e.current, name) {
        Some(idx) => with_local(e, idx, name, t),
        None => EnvView { globals: e.globals.insert(name, t), ..e },
    }
}

/// The environment with a new, empty scope inside the current one, made current.
pub open spec fn env_push(e: EnvView) -> EnvView {
    EnvView {
        scopes: e.scopes.push(ScopeView { parent: Some(e.current), locals: Map::empty() }),
        current: e.scopes.len() as int,
        ..e
    }
}

/// The environment with the current scope's parent made current (the
/// outermost scope stays current).
pub open spec fn env_pop(e: EnvView) -> EnvView {
    match e.scopes[e.current].parent {
        Some(p) => EnvView { current: p, ..e },
        None => e,
    }
}

/// The type of a table with field `field` set to `t`: the fields of `base`
/// when it is a table, else none.
pub open spec fn with_field(base: TypeView, field: Seq<char>, t: TypeView) -> TypeView {
    match base {
        TypeView::Table { fields } => TypeView::Table { fields: fields.insert(field, t) },
        _ => TypeView::Table { fields: Map::empty().insert(field, t) },
    }
}

impl TypeEnvironment {
    pub closed spec fn view(&self) -> EnvView {
        EnvView {
            scopes: Seq::new(
                self.scopes@.len(),
                |i: int|
                    ScopeView {
                        parent: match self.scopes@[i].parent {
                            Some(p) => Some(p as int),
                            None => None,
                        },
                        locals: fields_view(self.scopes@[i].locals@),
                    },
            ),
            current: self.current_scope as int,
            globals: fields_view(self.globals@),
        }
    }

    pub open spec fn wf(&self) -> bool {
        env_ok(self.view())
    }

    pub fn new() -> (e: TypeEnvironment)
        ensures
            e.wf(),
            e.view().scopes == seq![ScopeView { parent: None, locals: Map::empty() }],
            e.view().current == 0,
            e.view().globals == Map::<Seq<char>, TypeView>::empty(),
    {
        let e = TypeEnvironment {
            scopes: vec![Scope { parent: None, locals: Vec::new() }],
            current_scope: 0,
            globals: Vec::new(),
        };
        assert(e.view().scopes =~= seq![ScopeView { parent: None, locals: Map::empty() }]);
        e
    }

    pub fn push_scope(&mut self)
        requires
            old(self).wf(),
        ensures
            final(self).wf(),
            final(self).view() == env_push(old(self).view()),
    {
        self.scopes.push(Scope { parent: Some(self.current_scope), locals: Vec::new() });
        let new_idx = self.scopes.len() - 1;
        self.current_scope = new_idx;
        assert(self.view().scopes =~= env_push(old(self).view()).scopes);
    }

    pub fn pop_scope(&mut self)
        requires
            old(self).wf(),
        ensures
            final(self).wf(),
            final(self).view() == env_pop(old(self).view()),
    {
        if let Some(parent) = self.scopes[self.current_scope].parent {
            self.current_scope = parent;
        }
        assert(self.view().scopes =~= env_pop(old(self).view()).scopes);
    }

    pub fn set_local(&mut self, name: String, typ: ValueType)
        requires
            old(self).wf(),
        ensures
            final(self).wf(),
            final(self).view() == with_local(old(self).view(), old(self).view().current, name@, typ.view()),
    {
        let cur = self.current_scope;
        let mut scope = self.scopes.remove(cur);
        let ghost old_scope = scope;
        set_field(&mut scope.locals, name, typ);
        self.scopes.insert(cur, scope);
        assert(self.scopes@ =~= old(self).scopes@.update(cur as int, scope));
        assert(self.view().scopes =~= with_local(old(self).view(), cur as int, name@, typ.view()).scopes);
    }

    pub fn set_global(&mut self, name: String, typ: ValueType)
        requires
            old(self).wf(),
        ensures
            final(self).wf(),
            final(self).view() == (EnvView { globals: old(self).view().globals.insert(name@, typ.view()), ..old(self).view() }),
    {
        set_field(&mut self.globals, name, typ);
        assert(self.view().scopes =~= old(self).view().scopes);
    }

    /// A copy of the globals, as pairs of name and type.
    pub fn globals(&self) -> (r: Vec<(String, ValueType)>)
        ensures
            fields_view(r@) == self.view().globals,
    {
        copy_fields(&self.globals)
    }

    /// A copy of the locals of the outermost scope, as pairs of name and type.
    pub fn top_level_locals(&self) -> (r: Vec<(String, ValueType)>)
        requires
            self.wf(),
        ensures
            fields_view(r@) == self.view().scopes[0].locals,
    {
        copy_fields(&self.scopes[0].locals)
    }

    /// Whether scope `idx` holds a local `name`.
    fn has_local(&self, idx: usize, name: &String) -> (r: bool)
        requires
            self.wf(),
            idx < self.view().scopes.len(),
        ensures
            r == self.view().scopes[idx as int].locals.dom().contains(name@),
    {
        proof {
            lemma_fields_view(self.scopes@[idx as int].locals@, name@);
        }
        find_last(&self.scopes[idx].locals, name).is_some()
    }

    /// The type of `name` in the current scope: the nearest local, else the
    /// global, else unknown.
    pub fn lookup(&self, name: &str) -> (t: ValueType)
        requires
            self.wf(),
        ensures
            t.view() == env_lookup(self.view(), name@),
    {
        let key = name.to_owned();
        let ghost v = self.view();
        let mut scope_idx = self.current_scope;
        loop
            invariant
                self.wf(),
                v == self.view(),
                key@ == name@,
                scope_idx < v.scopes.len(),
                lookup_from(v, scope_idx as int, key@) == env_lookup(v, name@),
            ensures
                global_type(v, key@) == env_lookup(v, name@),
            decreases scope_idx,
        {
            match get_field(&self.scopes[scope_idx].locals, &key) {
                Some(t) => {
                    return t;
                },
                None => {},
            }
            match self.scopes[scope_idx].parent {
                Some(p) => {
                    assert(v.scopes[scope_idx as int].parent == Some(p as int));
                    scope_idx = p;
                },
                None => {
                    assert(v.scopes[scope_idx as int].parent is None);
                    assert(!v.scopes[scope_idx as int].locals.dom().contains(key@));
                    break;
                },
            }
        }
        match get_field(&self.globals, &key) {
            Some(t) => t,
            None => ValueType::Unknown,
        }
    }

    /// Sets `name` where it is defined: in the nearest scope that holds it,
    /// else among the globals.
    pub fn update_in_scope_or_global(&mut self, name: &str, typ: ValueType)
        requires
            old(self).wf(),
        ensures
            final(self).wf(),
            final(self).view() == env_update(old(self).view(), name@, typ.view()),
    {
        let key = name.to_owned();
        let ghost v = self.view();
        let mut scope_idx = self.current_scope;
        let mut found = false;
        loop
            invariant
                self.wf(),
                v == self.view(),
                *self == *old(self),
                key@ == name@,
                scope_idx < v.scopes.len(),
                !found ==> defining_scope(v, scope_idx as int, key@) == defining_scope(v, v.current, key@),
                found ==> defining_scope(v, v.current, key@) == Some(scope_idx as int),
                found ==> v.scopes[scope_idx as int].locals.dom().contains(key@),
            ensures
                self.wf(),
                v == self.view(),
                *self == *old(self),
                scope_idx < v.scopes.len(),
                found ==> defining_scope(v, v.current, key@) == Some(scope_idx as int),
                !found ==> defining_scope(v, v.current, key@) is None,
            decreases scope_idx,
        {
            if self.has_local(scope_idx, &key) {
                found = true;
                break;
            }
            match self.scopes[scope_idx].parent {
                Some(p) => {
                    assert(v.scopes[scope_idx as int].parent == Some(p as int));
                    scope_idx = p;
                },
                None => {
                    break;
                },
            }
        }
        if found {
            let mut scope = self.scopes.remove(scope_idx);
            set_field(&mut scope.locals, key, typ);
            self.scopes.insert(scope_idx, scope);
            assert(self.scopes@ =~= old(self).scopes@.update(scope_idx as int, scope));
            assert(self.view().scopes =~= with_local(v, scope_idx as int, name@, typ.view()).scopes);
        } else {
            set_field(&mut self.globals, key, typ);
            assert(self.view().scopes =~= v.scopes);
        }
    }

    /// Sets the field `field_name` of the table `table_name`: a table that
    /// holds the fields it had (none when it was no table) and the new one,
    /// set where `table_name` is defined.
    pub fn update_table_field(&mut self, table_name: &str, field_name: &str, typ: ValueType)
        requires
            old(self).wf(),
        ensures
            final(self).wf(),
            final(self).view() == env_update(
                old(self).view(),
                table_name@,
                with_field(env_lookup(old(self).view(), table_name@), field_name@, typ.view()),
            ),
    {
        let current = self.lookup(table_name);
        let mut fields = match current {
            ValueType::Table { fields } => fields,
            _ => Vec::new(),
        };
        proof {
            if !(current is Table) {
                assert(fields_view(fields@) =~= Map::empty());
            }
        }
        set_field(&mut fields, field_name.to_owned(), typ);
        self.update_in_scope_or_global(table_name, ValueType::Table { fields });
    }
}

// ---------------------------------------------------------------------------
// Types as text
// ---------------------------------------------------------------------------

/// How a type is written: `nil`, `boolean`, `number`, `string`, `unknown`,
/// `function(p1, p2) -> r1, r2` (without `-> ...` when nothing is returned),
/// `table{name: type, ...}` with the fields in the order they are held, and a
/// union as its types joined by ` | `.
pub open spec fn render(t: ValueType) -> Seq<char>
    decreases t,
{
    match t {
        ValueType::Nil => "nil"@,
        ValueType::Boolean => "boolean"@,
        ValueType::Number => "number"@,
        ValueType::String => "string"@,
        ValueType::Unknown => "unknown"@,
        ValueType::Function { params, results } => "function("@ + render_list(params@, ", "@) + ")"@
            + if results@.len() > 0 {
            " -> "@ + render_list(results@, ", "@)
        } else {
            Seq::empty()
        },
        ValueType::Table { fields } => "table{"@ + render_fields(fields@) + "}"@,
        ValueType::Union(types) => render_list(types@, " | "@),
    }
}

/// The types written one after another, `sep` between two.
pub open spec fn render_list(s: Seq<ValueType>, sep: Seq<char>) -> Seq<char>
    decreases s,
{
    if s.len() == 0 {
        Seq::empty()
    } else if s.len() == 1 {
        render(s[0])
    } else {
        render_list(s.drop_last(), sep) + sep + render(s.last())
    }
}

/// The fields written as `name: type`, `, ` between two.
pub open spec fn render_fields(s: Seq<(String, ValueType)>) -> Seq<char>
    decreases s,
{
    if s.len() == 0 {
        Seq::empty()
    } else if s.len() == 1 {
        s[0].0@ + ": "@ + render(s[0].1)
    } else {
        render_fields(s.drop_last()) + ", "@ + s.last().0@ + ": "@ + render(s.last().1)
    }
}

fn text(s: &str) -> (r: String)
    ensures
        r@ == s@,
{
    let mut r = String::new();
    r.append(s);
    r
}

impl ValueType {
    /// The type written out.
    pub fn describe(&self) -> (r: String)
        ensures
            r@ == render(*self),
        decreases self,
    {
        match self {
            ValueType::Nil => text("nil"),
            ValueType::Boolean => text("boolean"),
            ValueType::Number => text("number"),
            ValueType::String => text("string"),
            ValueType::Unknown => text("unknown"),
            ValueType::Function { params, results } => {
                let mut r = text("function(");
                r.append(describe_list(params, ", ").as_str());
                r.append(")");
                if results.len() > 0 {
                    r.append(" -> ");
                    r.append(describe_list(results, ", ").as_str());
                } else {
                    assert(r@ + Seq::<char>::empty() =~= r@);
                }
                r
            },
            ValueType::Table { fields } => {
                let mut r = text("table{");
                r.append(describe_fields(fields).as_str());
                r.append("}");
                r
            },
            ValueType::Union(types) => describe_list(types, " | "),
        }
    }
}

fn describe_list(s: &Vec<ValueType>, sep: &str) -> (r: String)
    ensures
        r@ == render_list(s@, sep@),
    decreases s,
{
    let mut r = String::new();
    let mut i: usize = 0;
    while i < s.len()
        invariant
            i <= s@.len(),
            r@ == render_list(s@.take(i as int), sep@),
        decreases s@.len() - i,
    {
        assert(s@.take(i + 1).drop_last() =~= s@.take(i as int));
        assert(s@.take(i + 1).last() == s@[i as int]);
        if i > 0 {
            r.append(sep);
        } else {
            assert(s@.take(1)[0] == s@[0]);
        }
        r.append(s[i].describe().as_str());
        i = i + 1;
    }
    assert(s@.take(s@.len() as int) =~= s@);
    r
}

fn describe_fields(s: &Vec<(String, ValueType)>) -> (r: String)
    ensures
        r@ == render_fields(s@),
    decreases s,
{
    let mut r = String::new();
    let mut i: usize = 0;
    while i < s.len()
        invariant
            i <= s@.len(),
            r@ == render_fields(s@.take(i as int)),
        decreases s@.len() - i,
    {
        assert(s@.take(i + 1).drop_last() =~= s@.take(i as int));
        assert(s@.take(i + 1).last() == s@[i as int]);
        if i > 0 {
            r.append(", ");
        } else {
            assert(s@.take(1)[0] == s@[0]);
        }
        r.append(s[i].0.as_str());
        r.append(": ");
        r.append(s[i].1.describe().as_str());
        i = i + 1;
    }
    assert(s@.take(s@.len() as int) =~= s@);
    r
}

// ---------------------------------------------------------------------------
// Laws of the environment
// ---------------------------------------------------------------------------

/// Two environments that agree on the scopes up to `idx` and on the globals
/// give the same type for every name, seen from `idx`.
pub proof fn lemma_lookup_agree(a: EnvView, b: EnvView, idx: int, name: Seq<char>)
    requires
        0 <= idx < a.scopes.len(),
        idx < b.scopes.len(),
        forall|i: int| 0 <= i <= idx ==> #[trigger] a.scopes[i] == b.scopes[i],
        a.globals == b.globals,
    ensures
        lookup_from(a, idx, name) == lookup_from(b, idx, name),
        defining_scope(a, idx, name) == defining_scope(b, idx, name),
    decreases idx,
{
    assert(a.scopes[idx] == b.scopes[idx]);
    match parent_of(a, idx) {
        Some(p) => {
            lemma_lookup_agree(a, b, p, name);
        },
        None => {},
    }
}

/// A name set as a local of the current scope is found with that type.
pub proof fn law_set_local_then_lookup(e: EnvView, name: Seq<char>, t: TypeView)
    requires
        env_ok(e),
    ensures
        env_lookup(with_local(e, e.current, name, t), name) == t,
{
}

/// Setting a local leaves what every other name means unchanged.
pub proof fn law_set_local_keeps_others(e: EnvView, name: Seq<char>, t: TypeView, other: Seq<char>)
    requires
        env_ok(e),
        other != name,
    ensures
        env_lookup(with_local(e, e.current, name, t), other) == env_lookup(e, other),
{
    let e2 = with_local(e, e.current, name, t);
    assert(e2.scopes[e.current].locals.dom().contains(other) == e.scopes[e.current].locals.dom().contains(other));
    match parent_of(e, e.current) {
        Some(p) => {
            lemma_lookup_agree(e, e2, p, other);
        },
        None => {},
    }
}

/// A name updated where it is defined is found with the new type.
pub proof fn law_update_then_lookup(e: EnvView, name: Seq<char>, t: TypeView)
    requires
        env_ok(e),
    ensures
        env_lookup(env_update(e, name, t), name) == t,
{
    lemma_update_from(e, e.current, name, t);
}

proof fn lemma_update_from(e: EnvView, idx: int, name: Seq<char>, t: TypeView)
    requires
        env_ok(e),
        0 <= idx < e.scopes.len(),
    ensures
        match defining_scope(e, idx, name) {
            Some(d) => 0 <= d <= idx && lookup_from(with_local(e, d, name, t), idx, name) == t,
            None => lookup_from(EnvView { globals: e.globals.insert(name, t), ..e }, idx, name) == t,
        },
    decreases idx,
{
    match defining_scope(e, idx, name) {
        Some(d) => {
            if d == idx {
            } else {
                let p = parent_of(e, idx).unwrap();
                lemma_update_from(e, p, name, t);
                let e2 = with_local(e, d, name, t);
                assert(e2.scopes[idx] == e.scopes[idx]);
            }
        },
        None => {
            match parent_of(e, idx) {
                Some(p) => {
                    lemma_update_from(e, p, name, t);
                },
                None => {},
            }
        },
    }
}

/// Setting a field of a table, then looking the table up, gives a table with
/// that field of that type, and every other field it had before.
pub proof fn law_table_field_then_lookup(e: EnvView, table: Seq<char>, field: Seq<char>, t: TypeView)
    requires
        env_ok(e),
    ensures
        ({
            let before = env_lookup(e, table);
            let after = env_lookup(env_update(e, table, with_field(before, field, t)), table);
            &&& after is Table
            &&& after->fields.dom().contains(field) && after->fields[field] == t
            &&& before is Table ==> forall|f: Seq<char>|
                f != field && #[trigger] before->fields.dom().contains(f) ==> after->fields.dom().contains(f)
                    && after->fields[f] == before->fields[f]
        }),
{
    let before = env_lookup(e, table);
    law_update_then_lookup(e, table, with_field(before, field, t));
}

/// A new scope hides nothing: every name means what it meant.
pub proof fn law_push_keeps_lookup(e: EnvView, name: Seq<char>)
    requires
        env_ok(e),
    ensures
        env_ok(env_push(e)),
        env_lookup(env_push(e), name) == env_lookup(e, name),
{
    let e2 = env_push(e);
    assert forall|i: int| 0 <= i < e2.scopes.len() implies match #[trigger] e2.scopes[i].parent {
        Some(p) => 0 <= p < i,
        None => i == 0,
    } by {
        if i < e.scopes.len() {
            assert(e2.scopes[i] == e.scopes[i]);
        }
    }
    assert(!e2.scopes[e2.current].locals.dom().contains(name));
    assert(parent_of(e2, e2.current) == Some(e.current));
    lemma_lookup_agree(e, e2, e.current, name);
}

/// Leaving a scope that was just made returns to the scope that was current:
/// the current scope and the globals are as before, and so is every lookup.
pub proof fn law_pop_undoes_push(e: EnvView, name: Seq<char>)
    requires
        env_ok(e),
    ensures
        env_pop(env_push(e)).current == e.current,
        env_pop(env_push(e)).globals == e.globals,
        env_lookup(env_pop(env_push(e)), name) == env_lookup(e, name),
{
    let e2 = env_pop(env_push(e));
    assert(e2.scopes == e.scopes.push(ScopeView { parent: Some(e.current), locals: Map::empty() }));
    assert forall|i: int| 0 <= i <= e.current implies #[trigger] e.scopes[i] == e2.scopes[i] by {}
    lemma_lookup_agree(e, e2, e.current, name);
}

/// A local set inside a scope is gone once that scope is left: every name
/// means again what it meant before the scope was made.
pub proof fn law_inner_local_gone_after_pop(e: EnvView, name: Seq<char>, t: TypeView, other: Seq<char>)
    requires
        env_ok(e),
    ensures
        ({
            let inner = env_push(e);
            let after = env_pop(with_local(inner, inner.current, name, t));
            after.current == e.current && env_lookup(after, other) == env_lookup(e, other)
        }),
{
    let inner = env_push(e);
    let e3 = with_local(inner, inner.current, name, t);
    let after = env_pop(e3);
    assert(e3.scopes[inner.current].parent == Some(e.current));
    assert(after.current == e.current);
    assert forall|i: int| 0 <= i <= e.current implies #[trigger] e.scopes[i] == after.scopes[i] by {}
    lemma_lookup_agree(e, after, e.current, other);
}

// ---------------------------------------------------------------------------
// The types of expressions
// ---------------------------------------------------------------------------

/// The statements of a block.
pub open spec fn statements_of(b: Node) -> Seq<Node> {
    nodes_in_class(b.children@, NodeClass::Statement)
}

/// The expressions among a node's children.
pub open spec fn expressions_of(n: Node) -> Seq<Node> {
    nodes_in_class(n.children@, NodeClass::Expression)
}

/// The first child node of kind `k`.
pub open spec fn child_of_kind(n: Node, k: SyntaxKind) -> Option<Node> {
    first_node_of_kind(n.children@, spec_raw(k))
}

/// The texts of the child tokens of kind `k`.
pub open spec fn texts_of(n: Node, k: SyntaxKind) -> Seq<Seq<char>> {
    token_texts(n.children@, spec_raw(k))
}

/// The type that a literal gives: by the first kind of string, boolean,
/// number or nil among its children.
pub open spec fn literal_type(n: Node) -> TypeView {
    let s = n.children@;
    if has_kind(s, spec_raw(SyntaxKind::String)) {
        TypeView::String
    } else if has_kind(s, spec_raw(SyntaxKind::TrueKeyword)) || has_kind(
        s,
        spec_raw(SyntaxKind::FalseKeyword),
    ) {
        TypeView::Boolean
    } else if has_kind(s, spec_raw(SyntaxKind::Number)) {
        TypeView::Number
    } else if has_kind(s, spec_raw(SyntaxKind::NilKeyword)) {
        TypeView::Nil
    } else {
        TypeView::Unknown
    }
}

/// The type of a name, or of the field `b` of the table `a` for `a.b`.
pub open spec fn identifier_type(n: Node, e: EnvView) -> TypeView {
    let names = texts_of(n, SyntaxKind::Name);
    if names.len() == 1 {
        env_lookup(e, names[0])
    } else if names.len() >= 2 {
        match env_lookup(e, names[0]) {
            TypeView::Table { fields } => if fields.dom().contains(names[1]) {
                fields[names[1]]
            } else {
                TypeView::Unknown
            },
            _ => TypeView::Unknown,
        }
    } else {
        TypeView::Unknown
    }
}

/// `acc` with `t` added at its end unless it holds `t` already.
pub open spec fn add_unique(acc: Seq<TypeView>, t: TypeView) -> Seq<TypeView> {
    if acc.contains(t) {
        acc
    } else {
        acc.push(t)
    }
}

/// The name of a field `name = value`: the one name of its first identifier,
/// when it has an `=`.
pub open spec fn field_name(f: Node) -> Option<Seq<char>> {
    match child_of_kind(f, SyntaxKind::Identifier) {
        Some(id) => {
            let names = texts_of(id, SyntaxKind::Name);
            if has_token(f.children@, spec_raw(SyntaxKind::Assign)) && names.len() == 1 {
                Some(names[0])
            } else {
                None
            }
        },
        None => None,
    }
}

/// The value of a field: the expression inside its `Expression` node.
pub open spec fn field_value(f: Node) -> Option<Node> {
    match child_of_kind(f, SyntaxKind::Expression) {
        Some(x) => first_in_class(x.children@, NodeClass::Expression),
        None => None,
    }
}

/// The type of an expression.
pub open spec fn expr_type(n: Node, e: EnvView) -> TypeView
    decreases node_size(n),
{
    let k = n.kind;
    proof {
        lemma_parts(n);
    }
    if k == spec_raw(SyntaxKind::Literal) {
        literal_type(n)
    } else if k == spec_raw(SyntaxKind::Identifier) {
        identifier_type(n, e)
    } else if k == spec_raw(SyntaxKind::BinaryExpression) {
        match first_operator(n.children@, false) {
            Operator::Add | Operator::Subtract | Operator::Multiply | Operator::Divide
            | Operator::Modulo | Operator::Hat => TypeView::Number,
            Operator::Concatenate => TypeView::String,
            Operator::LessThan | Operator::GreaterThan | Operator::LessThanOrEquals
            | Operator::GreaterThanOrEquals | Operator::Equals | Operator::NotEquals => TypeView::Boolean,
            Operator::And | Operator::Or => {
                let terms = expressions_of(n);
                if terms.len() == 2 {
                    let l = expr_type(terms[0], e);
                    let r = expr_type(terms[1], e);
                    if l == r {
                        l
                    } else {
                        TypeView::Union(seq![l, r])
                    }
                } else {
                    TypeView::Unknown
                }
            },
            _ => TypeView::Unknown,
        }
    } else if k == spec_raw(SyntaxKind::UnaryExpression) {
        match first_operator(n.children@, true) {
            Operator::Not => TypeView::Boolean,
            Operator::Subtract | Operator::ArrayLength => TypeView::Number,
            _ => TypeView::Unknown,
        }
    } else if k == spec_raw(SyntaxKind::GroupedExpression) {
        match first_in_class(n.children@, NodeClass::Expression) {
            Some(x) => expr_type(x, e),
            None => TypeView::Unknown,
        }
    } else if k == spec_raw(SyntaxKind::FunctionDefinition) {
        let params = match child_of_kind(n, SyntaxKind::ParameterList) {
            Some(pl) => Seq::new(texts_of(pl, SyntaxKind::Parameter).len(), |i: int| TypeView::Unknown),
            None => Seq::empty(),
        };
        let results = match child_of_kind(n, SyntaxKind::Block) {
            Some(b) => {
                proof {
                    lemma_parts(b);
                }
                ret_fold(statements_of(b), e, Seq::empty())
            },
            None => Seq::empty(),
        };
        TypeView::Function { params, results }
    } else if k == spec_raw(SyntaxKind::TableConstructor) {
        TypeView::Table {
            fields: field_fold(nodes_of_kind(n.children@, spec_raw(SyntaxKind::Field)), e, Map::empty()),
        }
    } else {
        TypeView::Unknown
    }
}

/// The types that the return statements among `stmts` give, in order of first
/// appearance, added to `acc`: a return with values gives the type of its
/// first value, one without a value list gives nil.
pub open spec fn ret_fold(stmts: Seq<Node>, e: EnvView, acc: Seq<TypeView>) -> Seq<TypeView>
    decreases nodes_size(stmts),
{
    if stmts.len() == 0 {
        acc
    } else {
        let s0 = stmts[0];
        proof {
            lemma_nodes_size(stmts);
            lemma_parts(s0);
        }
        let acc2 = if s0.kind == spec_raw(SyntaxKind::ReturnStatement) {
            match child_of_kind(s0, SyntaxKind::ExpressionList) {
                Some(el) => {
                    proof {
                        lemma_parts(el);
                    }
                    let exprs = expressions_of(el);
                    if exprs.len() > 0 {
                        add_unique(acc, expr_type(exprs[0], e))
                    } else {
                        acc
                    }
                },
                None => add_unique(acc, TypeView::Nil),
            }
        } else {
            acc
        };
        ret_fold(stmts.drop_first(), e, acc2)
    }
}

/// The fields that a list of fields gives, added to `acc`: each named field
/// with the type of its value (unknown without one).
pub open spec fn field_fold(fields: Seq<Node>, e: EnvView, acc: Map<Seq<char>, TypeView>) -> Map<
    Seq<char>,
    TypeView,
>
    decreases nodes_size(fields),
{
    if fields.len() == 0 {
        acc
    } else {
        let f = fields[0];
        proof {
            lemma_nodes_size(fields);
            lemma_parts(f);
        }
        let acc2 = match field_name(f) {
            Some(name) => acc.insert(
                name,
                match field_value(f) {
                    Some(x) => {
                        proof {
                            lemma_parts(child_of_kind(f, SyntaxKind::Expression).unwrap());
                        }
                        expr_type(x, e)
                    },
                    None => TypeView::Unknown,
                },
            ),
            None => acc,
        };
        field_fold(fields.drop_first(), e, acc2)
    }
}

/// Each part of a node that the rules above look at is smaller than the node.
pub proof fn lemma_parts(n: Node)
    ensures
        forall|c: NodeClass, i: int|
            0 <= i < nodes_in_class(n.children@, c).len() ==> node_size(
                #[trigger] nodes_in_class(n.children@, c)[i],
            ) < node_size(n),
        forall|k: u16, i: int|
            0 <= i < nodes_of_kind(n.children@, k).len() ==> node_size(
                #[trigger] nodes_of_kind(n.children@, k)[i],
            ) < node_size(n),
        forall|c: NodeClass| #[trigger] nodes_size(nodes_in_class(n.children@, c)) < node_size(n),
        forall|k: u16| #[trigger] nodes_size(nodes_of_kind(n.children@, k)) < node_size(n),
{
    n.lemma_parts_smaller();
    assert forall|c: NodeClass, i: int|
        0 <= i < nodes_in_class(n.children@, c).len() implies node_size(
        #[trigger] nodes_in_class(n.children@, c)[i],
    ) < node_size(n) by {
        lemma_nodes_size(nodes_in_class(n.children@, c));
    }
    assert forall|k: u16, i: int|
        0 <= i < nodes_of_kind(n.children@, k).len() implies node_size(
        #[trigger] nodes_of_kind(n.children@, k)[i],
    ) < node_size(n) by {
        lemma_nodes_size(nodes_of_kind(n.children@, k));
    }
}

fn kind_is(n: &Node, k: SyntaxKind) -> (r: bool)
    ensures
        r == (n.kind == spec_raw(k)),
{
    n.kind == to_raw(k)
}

/// Whether `v` holds a type equal to `t`.
fn contains_type(v: &Vec<ValueType>, t: &ValueType) -> (r: bool)
    ensures
        r == views(v@).contains(t.view()),
{
    proof {
        lemma_views(v@);
    }
    let mut i: usize = 0;
    while i < v.len()
        invariant
            i <= v@.len(),
            views(v@).len() == v@.len(),
            forall|j: int| 0 <= j < v@.len() ==> #[trigger] views(v@)[j] == v@[j].view(),
            forall|j: int| 0 <= j < i ==> v@[j].view() != t.view(),
        decreases v@.len() - i,
    {
        if v[i].same(t) {
            assert(views(v@)[i as int] == t.view());
            return true;
        }
        i = i + 1;
    }
    proof {
        if views(v@).contains(t.view()) {
            let j = choose|j: int| 0 <= j < views(v@).len() && views(v@)[j] == t.view();
            assert(v@[j].view() == t.view());
        }
    }
    false
}

/// Adds `t` at the end of `acc` unless `acc` holds an equal type.
fn add_unique_type(acc: &mut Vec<ValueType>, t: ValueType)
    ensures
        views(final(acc)@) == add_unique(views(old(acc)@), t.view()),
{
    if !contains_type(acc, &t) {
        acc.push(t);
        assert(acc@.drop_last() =~= old(acc)@);
    }
}

/// The type that a literal gives.
fn literal_type_of(n: &Node) -> (t: ValueType)
    ensures
        t.view() == literal_type(*n),
{
    if n.has_kind(to_raw(SyntaxKind::String)) {
        ValueType::String
    } else if n.has_kind(to_raw(SyntaxKind::TrueKeyword)) || n.has_kind(
        to_raw(SyntaxKind::FalseKeyword),
    ) {
        ValueType::Boolean
    } else if n.has_kind(to_raw(SyntaxKind::Number)) {
        ValueType::Number
    } else if n.has_kind(to_raw(SyntaxKind::NilKeyword)) {
        ValueType::Nil
    } else {
        ValueType::Unknown
    }
}

/// The type of a name, or of a field of a table.
fn identifier_type_of(n: &Node, env: &TypeEnvironment) -> (t: ValueType)
    requires
        env.wf(),
    ensures
        t.view() == identifier_type(*n, env.view()),
{
    let names = n.token_texts(to_raw(SyntaxKind::Name));
    if names.len() == 1 {
        env.lookup(names[0].as_str())
    } else if names.len() >= 2 {
        let base = env.lookup(names[0].as_str());
        match base {
            ValueType::Table { fields } => {
                match get_field(&fields, &names[1]) {
                    Some(t) => t,
                    None => ValueType::Unknown,
                }
            },
            _ => ValueType::Unknown,
        }
    } else {
        ValueType::Unknown
    }
}

/// The name of a field `name = value`.
fn field_name_of(f: &Node) -> (r: Option<String>)
    ensures
        match field_name(*f) {
            Some(name) => r matches Some(s) && s@ == name,
            None => r is None,
        },
{
    match f.first_node_of_kind(to_raw(SyntaxKind::Identifier)) {
        Some(id) => {
            let names = id.token_texts(to_raw(SyntaxKind::Name));
            if f.has_token(to_raw(SyntaxKind::Assign)) && names.len() == 1 {
                Some(names[0].clone())
            } else {
                None
            }
        },
        None => None,
    }
}

/// The value of a field.
fn field_value_of(f: &Node) -> (r: Option<&Node>)
    ensures
        match field_value(*f) {
            Some(x) => r matches Some(y) && *y == x,
            None => r is None,
        },
{
    match f.first_node_of_kind(to_raw(SyntaxKind::Expression)) {
        Some(x) => x.first_in_class(NodeClass::Expression),
        None => None,
    }
}

/// The type of an operator expression follows from its operator alone, in
/// every environment: a binary expression whose first operator token is a
/// comparison is a boolean, one whose first operator is `+`, `-`, `*`, `/` or
/// `%` is a number, and one whose first operator is `..` is a string.
pub proof fn law_binary_expression_types(n: Node, e: EnvView, i: int)
    requires
        n.kind == spec_raw(SyntaxKind::BinaryExpression),
        0 <= i < n.children@.len(),
        forall|j: int| 0 <= j < i ==> !is_binary_operator_kind(element_kind(#[trigger] n.children@[j])),
        is_binary_operator_kind(element_kind(n.children@[i])),
    ensures
        ({
            let k = element_kind(n.children@[i]);
            &&& (k == spec_raw(SyntaxKind::LessThan) || k == spec_raw(SyntaxKind::GreaterThan) || k
                == spec_raw(SyntaxKind::LessThanOrEquals) || k == spec_raw(SyntaxKind::GreaterThanOrEquals)
                || k == spec_raw(SyntaxKind::NotEqualsBoolean) || k == spec_raw(SyntaxKind::EqualsBoolean))
                ==> expr_type(n, e) == TypeView::Boolean
            &&& (k == spec_raw(SyntaxKind::Plus) || k == spec_raw(SyntaxKind::Minus) || k == spec_raw(
                SyntaxKind::Asterisk,
            ) || k == spec_raw(SyntaxKind::Slash) || k == spec_raw(SyntaxKind::Modulo)) ==> expr_type(n, e)
                == TypeView::Number
            &&& k == spec_raw(SyntaxKind::DoubleDot) ==> expr_type(n, e) == TypeView::String
        }),
{
    law_first_operator(n.children@, i, false);
    law_binary_operator_names(element_kind(n.children@[i]));
}

/// A unary expression whose first operator token is `not` is a boolean, and
/// one whose first operator token is `-` or `#` is a number, in every
/// environment.
pub proof fn law_unary_expression_types(n: Node, e: EnvView, i: int)
    requires
        n.kind == spec_raw(SyntaxKind::UnaryExpression),
        0 <= i < n.children@.len(),
        forall|j: int| 0 <= j < i ==> !is_unary_operator_kind(element_kind(#[trigger] n.children@[j])),
        is_unary_operator_kind(element_kind(n.children@[i])),
    ensures
        element_kind(n.children@[i]) == spec_raw(SyntaxKind::NotKeyword) ==> expr_type(n, e) == TypeView::Boolean,
        element_kind(n.children@[i]) == spec_raw(SyntaxKind::Minus) || element_kind(n.children@[i]) == spec_raw(
            SyntaxKind::Hash,
        ) ==> expr_type(n, e) == TypeView::Number,
{
    let k = element_kind(n.children@[i]);
    law_first_operator(n.children@, i, true);
    law_unary_operator_names(k, k);
}

/// The type of an expression in the environment `env`.
pub fn get_expression_type(expr: &Node, env: &TypeEnvironment) -> (t: ValueType)
    requires
        env.wf(),
    ensures
        t.view() == expr_type(*expr, env.view()),
    decreases node_size(*expr),
{
    proof {
        lemma_parts(*expr);
    }
    if kind_is(expr, SyntaxKind::Literal) {
        literal_type_of(expr)
    } else if kind_is(expr, SyntaxKind::Identifier) {
        identifier_type_of(expr, env)
    } else if kind_is(expr, SyntaxKind::BinaryExpression) {
        match operator_kind(expr, false) {
            Operator::Add | Operator::Subtract | Operator::Multiply | Operator::Divide
            | Operator::Modulo | Operator::Hat => ValueType::Number,
            Operator::Concatenate => ValueType::String,
            Operator::LessThan | Operator::GreaterThan | Operator::LessThanOrEquals
            | Operator::GreaterThanOrEquals | Operator::Equals | Operator::NotEquals => ValueType::Boolean,
            Operator::And | Operator::Or => {
                let terms = expr.nodes_in_class(NodeClass::Expression);
                if terms.len() == 2 {
                    let left = get_expression_type(terms[0], env);
                    let right = get_expression_type(terms[1], env);
                    if left.same(&right) {
                        left
                    } else {
                        let ghost lv = left.view();
                        let ghost rv = right.view();
                        let u = vec![left, right];
                        proof {
                            lemma_views(u@);
                            assert(views(u@) =~= seq![lv, rv]);
                        }
                        ValueType::Union(u)
                    }
                } else {
                    ValueType::Unknown
                }
            },
            _ => ValueType::Unknown,
        }
    } else if kind_is(expr, SyntaxKind::UnaryExpression) {
        match operator_kind(expr, true) {
            Operator::Not => ValueType::Boolean,
            Operator::Subtract | Operator::ArrayLength => ValueType::Number,
            _ => ValueType::Unknown,
        }
    } else if kind_is(expr, SyntaxKind::GroupedExpression) {
        match expr.first_in_class(NodeClass::Expression) {
            Some(inner) => get_expression_type(inner, env),
            None => ValueType::Unknown,
        }
    } else if kind_is(expr, SyntaxKind::FunctionDefinition) {
        let mut params: Vec<ValueType> = Vec::new();
        let ghost pn: nat = 0;
        match expr.first_node_of_kind(to_raw(SyntaxKind::ParameterList)) {
            Some(pl) => {
                let names = pl.token_texts(to_raw(SyntaxKind::Parameter));
                let mut i: usize = 0;
                while i < names.len()
                    invariant
                        i <= names@.len(),
                        params@.len() == i,
                        forall|j: int| 0 <= j < i ==> #[trigger] params@[j].view() == TypeView::Unknown,
                    decreases names@.len() - i,
                {
                    params.push(ValueType::Unknown);
                    i = i + 1;
                }
                proof {
                    lemma_views(params@);
                    assert(views(params@) =~= Seq::new(
                        texts_of(*pl, SyntaxKind::Parameter).len(),
                        |i: int| TypeView::Unknown,
                    ));
                }
            },
            None => {
                assert(views(params@) =~= Seq::<TypeView>::empty());
            },
        }
        let results = match expr.first_node_of_kind(to_raw(SyntaxKind::Block)) {
            Some(block) => infer_return_types(block, env),
            None => {
                let r: Vec<ValueType> = Vec::new();
                assert(views(r@) =~= Seq::<TypeView>::empty());
                r
            },
        };
        ValueType::Function { params, results }
    } else if kind_is(expr, SyntaxKind::TableConstructor) {
        let mut fields: Vec<(String, ValueType)> = Vec::new();
        let list = expr.nodes_of_kind(to_raw(SyntaxKind::Field));
        let ghost all = nodes_of_kind(expr.children@, spec_raw(SyntaxKind::Field));
        let ghost e = env.view();
        let mut i: usize = 0;
        assert(all.skip(0) =~= all);
        while i < list.len()
            invariant
                env.wf(),
                e == env.view(),
                i <= list@.len(),
                list@.len() == all.len(),
                forall|j: int| 0 <= j < list@.len() ==> *list@[j] == all[j],
                forall|j: int| 0 <= j < all.len() ==> node_size(#[trigger] all[j]) < node_size(*expr),
                field_fold(all, e, Map::empty()) == field_fold(all.skip(i as int), e, fields_view(fields@)),
            decreases list@.len() - i,
        {
            let f = list[i];
            proof {
                lemma_parts(*f);
                assert(all.skip(i as int)[0] == all[i as int]);
                assert(all.skip(i as int).drop_first() =~= all.skip(i + 1));
            }
            match field_name_of(f) {
                Some(name) => {
                    let typ = match field_value_of(f) {
                        Some(x) => {
                            proof {
                                lemma_parts(child_of_kind(*f, SyntaxKind::Expression).unwrap());
                            }
                            get_expression_type(x, env)
                        },
                        None => ValueType::Unknown,
                    };
                    set_field(&mut fields, name, typ);
                },
                None => {},
            }
            i = i + 1;
        }
        ValueType::Table { fields }
    } else {
        ValueType::Unknown
    }
}

/// The types that the return statements of a block give, each once, in order
/// of first appearance.
pub fn infer_return_types(block: &Node, env: &TypeEnvironment) -> (r: Vec<ValueType>)
    requires
        env.wf(),
    ensures
        views(r@) == ret_fold(statements_of(*block), env.view(), Seq::empty()),
    decreases node_size(*block),
{
    proof {
        lemma_parts(*block);
    }
    let stmts = block.nodes_in_class(NodeClass::Statement);
    let ghost all = statements_of(*block);
    let ghost e = env.view();
    let mut acc: Vec<ValueType> = Vec::new();
    let mut i: usize = 0;
    assert(all.skip(0) =~= all);
    assert(views(acc@) =~= Seq::<TypeView>::empty());
    while i < stmts.len()
        invariant
            env.wf(),
            e == env.view(),
            i <= stmts@.len(),
            stmts@.len() == all.len(),
            forall|j: int| 0 <= j < stmts@.len() ==> *stmts@[j] == all[j],
            forall|j: int| 0 <= j < all.len() ==> node_size(#[trigger] all[j]) < node_size(*block),
            ret_fold(all, e, Seq::empty()) == ret_fold(all.skip(i as int), e, views(acc@)),
        decreases stmts@.len() - i,
    {
        let s0 = stmts[i];
        proof {
            lemma_parts(*s0);
            assert(all.skip(i as int)[0] == all[i as int]);
            assert(all.skip(i as int).drop_first() =~= all.skip(i + 1));
        }
        if kind_is(s0, SyntaxKind::ReturnStatement) {
            match s0.first_node_of_kind(to_raw(SyntaxKind::ExpressionList)) {
                Some(el) => {
                    proof {
                        lemma_parts(*el);
                    }
                    let exprs = el.nodes_in_class(NodeClass::Expression);
                    if exprs.len() > 0 {
                        let t = get_expression_type(exprs[0], env);
                        add_unique_type(&mut acc, t);
                    }
                },
                None => {
                    add_unique_type(&mut acc, ValueType::Nil);
                },
            }
        }
        i = i + 1;
    }
    acc
}

// ---------------------------------------------------------------------------
// What statements do to the environment
// ---------------------------------------------------------------------------

/// Each name of `names` from index `i` on set as a local of the current scope,
/// to the type of the expression at the same index (evaluated after the names
/// before it were set), or nil when there is none.
pub open spec fn local_fold(names: Seq<Seq<char>>, exprs: Seq<Node>, i: int, e: EnvView) -> EnvView
    decreases names.len() - i,
{
    if 0 <= i < names.len() {
        let t = if i < exprs.len() {
            expr_type(exprs[i], e)
        } else {
            TypeView::Nil
        };
        local_fold(names, exprs, i + 1, with_local(e, e.current, names[i], t))
    } else {
        e
    }
}

/// `target = t` for an identifier's names: the name itself when there is one,
/// the field `b` of the table `a` for `a.b`.
pub open spec fn assign_names(names: Seq<Seq<char>>, t: TypeView, e: EnvView) -> EnvView {
    if names.len() == 1 {
        env_update(e, names[0], t)
    } else if names.len() >= 2 {
        env_update(e, names[0], with_field(env_lookup(e, names[0]), names[1], t))
    } else {
        e
    }
}

/// Each identifier of `ids` from index `i` on assigned the type of the
/// expression at the same index, or nil.
pub open spec fn assign_fold(ids: Seq<Node>, exprs: Seq<Node>, i: int, e: EnvView) -> EnvView
    decreases ids.len() - i,
{
    if 0 <= i < ids.len() {
        let t = if i < exprs.len() {
            expr_type(exprs[i], e)
        } else {
            TypeView::Nil
        };
        assign_fold(ids, exprs, i + 1, assign_names(texts_of(ids[i], SyntaxKind::Name), t, e))
    } else {
        e
    }
}

/// Each name set as a local of the current scope, of unknown type.
pub open spec fn unknown_locals(names: Seq<Seq<char>>, e: EnvView) -> EnvView
    decreases names.len(),
{
    if names.len() == 0 {
        e
    } else {
        unknown_locals(names.drop_first(), with_local(e, e.current, names[0], TypeView::Unknown))
    }
}

/// The expressions of a node's first expression list, or none.
pub open spec fn list_expressions(n: Node) -> Seq<Node> {
    match child_of_kind(n, SyntaxKind::ExpressionList) {
        Some(el) => expressions_of(el),
        None => Seq::empty(),
    }
}

/// The type of a function definition: unknown parameters, and the types of
/// its returns seen with the parameters as locals of a new scope.
pub open spec fn function_type(n: Node, e: EnvView) -> TypeView {
    let params = match child_of_kind(n, SyntaxKind::ParameterList) {
        Some(pl) => Seq::new(texts_of(pl, SyntaxKind::Parameter).len(), |i: int| TypeView::Unknown),
        None => Seq::empty(),
    };
    let results = match child_of_kind(n, SyntaxKind::Block) {
        Some(b) => ret_fold(statements_of(b), params_env(n, e), Seq::empty()),
        None => Seq::empty(),
    };
    TypeView::Function { params, results }
}

/// A new scope with the parameters of a function definition as unknown locals.
pub open spec fn params_env(n: Node, e: EnvView) -> EnvView {
    match child_of_kind(n, SyntaxKind::ParameterList) {
        Some(pl) => unknown_locals(texts_of(pl, SyntaxKind::Parameter), env_push(e)),
        None => env_push(e),
    }
}

/// The environment after a statement.
pub open spec fn stmt_env(n: Node, e: EnvView) -> EnvView
    decreases node_size(n), 0nat,
{
    let k = n.kind;
    proof {
        lemma_parts(n);
    }
    if k == spec_raw(SyntaxKind::LocalAssignStatement) {
        match child_of_kind(n, SyntaxKind::NameList) {
            Some(nl) => local_fold(texts_of(nl, SyntaxKind::Name), list_expressions(n), 0, e),
            None => e,
        }
    } else if k == spec_raw(SyntaxKind::Assign) {
        match child_of_kind(n, SyntaxKind::VariableList) {
            Some(vl) => assign_fold(
                nodes_of_kind(vl.children@, spec_raw(SyntaxKind::Identifier)),
                list_expressions(n),
                0,
                e,
            ),
            None => e,
        }
    } else if k == spec_raw(SyntaxKind::FunctionDefinition) {
        let e4 = match child_of_kind(n, SyntaxKind::Block) {
            Some(b) => {
                proof {
                    lemma_parts(b);
                }
                env_pop(stmts_env(statements_of(b), params_env(n, e)))
            },
            None => e,
        };
        let ft = function_type(n, e);
        match child_of_kind(n, SyntaxKind::Identifier) {
            Some(id) => {
                let names = texts_of(id, SyntaxKind::Name);
                if names.len() == 1 && has_kind(n.children@, spec_raw(SyntaxKind::LocalKeyword)) {
                    with_local(e4, e4.current, names[0], ft)
                } else {
                    assign_names(names, ft, e4)
                }
            },
            None => e4,
        }
    } else if k == spec_raw(SyntaxKind::DoBlock) || k == spec_raw(SyntaxKind::WhileLoop) || k
        == spec_raw(SyntaxKind::RepeatUntilLoop) {
        match child_of_kind(n, SyntaxKind::Block) {
            Some(b) => {
                proof {
                    lemma_parts(b);
                }
                env_pop(stmts_env(statements_of(b), env_push(e)))
            },
            None => e,
        }
    } else if k == spec_raw(SyntaxKind::ForCountLoop) {
        match child_of_kind(n, SyntaxKind::Block) {
            Some(b) => {
                proof {
                    lemma_parts(b);
                }
                let e1 = env_push(e);
                let names = texts_of(n, SyntaxKind::Name);
                let e2 = if names.len() > 0 {
                    with_local(e1, e1.current, names[0], TypeView::Number)
                } else {
                    e1
                };
                env_pop(stmts_env(statements_of(b), e2))
            },
            None => e,
        }
    } else if k == spec_raw(SyntaxKind::ForInLoop) {
        match child_of_kind(n, SyntaxKind::Block) {
            Some(b) => {
                proof {
                    lemma_parts(b);
                }
                let e1 = env_push(e);
                let e2 = match child_of_kind(n, SyntaxKind::NameList) {
                    Some(nl) => unknown_locals(texts_of(nl, SyntaxKind::Name), e1),
                    None => e1,
                };
                env_pop(stmts_env(statements_of(b), e2))
            },
            None => e,
        }
    } else if k == spec_raw(SyntaxKind::IfChain) {
        let e1 = branches_env(nodes_of_kind(n.children@, spec_raw(SyntaxKind::IfBranch)), e);
        match child_of_kind(n, SyntaxKind::ElseBranch) {
            Some(eb) => {
                proof {
                    lemma_parts(eb);
                }
                match child_of_kind(eb, SyntaxKind::Block) {
                    Some(b) => {
                        proof {
                            lemma_parts(b);
                        }
                        env_pop(stmts_env(statements_of(b), env_push(e1)))
                    },
                    None => e1,
                }
            },
            None => e1,
        }
    } else {
        e
    }
}

/// The environment after statements, one after another.
pub open spec fn stmts_env(stmts: Seq<Node>, e: EnvView) -> EnvView
    decreases nodes_size(stmts), 1nat,
{
    if stmts.len() == 0 {
        e
    } else {
        proof {
            lemma_nodes_size(stmts);
        }
        stmts_env(stmts.drop_first(), stmt_env(stmts[0], e))
    }
}

/// The environment after the blocks of `if` branches, each in a scope of its own.
pub open spec fn branches_env(branches: Seq<Node>, e: EnvView) -> EnvView
    decreases nodes_size(branches), 1nat,
{
    if branches.len() == 0 {
        e
    } else {
        let br = branches[0];
        proof {
            lemma_nodes_size(branches);
            lemma_parts(br);
        }
        let e1 = match child_of_kind(br, SyntaxKind::Block) {
            Some(b) => {
                proof {
                    lemma_parts(b);
                }
                env_pop(stmts_env(statements_of(b), env_push(e)))
            },
            None => e,
        };
        branches_env(branches.drop_first(), e1)
    }
}

/// The expressions of a node's first expression list.
fn list_expressions_of(n: &Node) -> (r: Vec<&Node>)
    ensures
        r@.len() == list_expressions(*n).len(),
        forall|i: int| 0 <= i < r@.len() ==> *r@[i] == list_expressions(*n)[i],
{
    match n.first_node_of_kind(to_raw(SyntaxKind::ExpressionList)) {
        Some(el) => el.nodes_in_class(NodeClass::Expression),
        None => Vec::new(),
    }
}

/// Sets each name as an unknown local of the current scope.
fn set_unknown_locals(names: &Vec<String>, env: &mut TypeEnvironment)
    requires
        old(env).wf(),
    ensures
        final(env).wf(),
        final(env).view() == unknown_locals(names@.map_values(|s: String| s@), old(env).view()),
{
    let ghost all = names@.map_values(|s: String| s@);
    let mut i: usize = 0;
    assert(all.skip(0) =~= all);
    while i < names.len()
        invariant
            env.wf(),
            i <= names@.len(),
            all == names@.map_values(|s: String| s@),
            unknown_locals(all, old(env).view()) == unknown_locals(all.skip(i as int), env.view()),
        decreases names@.len() - i,
    {
        proof {
            assert(all.skip(i as int)[0] == names@[i as int]@);
            assert(all.skip(i as int).drop_first() =~= all.skip(i + 1));
        }
        env.set_local(names[i].clone(), ValueType::Unknown);
        i = i + 1;
    }
}

/// Assigns `typ` to what an identifier's names name.
fn assign_to_names(names: &Vec<String>, typ: ValueType, env: &mut TypeEnvironment)
    requires
        old(env).wf(),
    ensures
        final(env).wf(),
        final(env).view() == assign_names(names@.map_values(|s: String| s@), typ.view(), old(env).view()),
{
    if names.len() == 1 {
        env.update_in_scope_or_global(names[0].as_str(), typ);
    } else if names.len() >= 2 {
        env.update_table_field(names[0].as_str(), names[1].as_str(), typ);
    }
}

/// Updates the environment for one statement.
pub fn process_statement(stmt: &Node, env: &mut TypeEnvironment)
    requires
        old(env).wf(),
    ensures
        final(env).wf(),
        final(env).view() == stmt_env(*stmt, old(env).view()),
        frame_kept(old(env).view(), final(env).view()),
    decreases node_size(*stmt),
{
    proof {
        lemma_parts(*stmt);
        law_statement_keeps_scope(*stmt, old(env).view());
    }
    if kind_is(stmt, SyntaxKind::LocalAssignStatement) {
        match stmt.first_node_of_kind(to_raw(SyntaxKind::NameList)) {
            Some(nl) => {
                let names = nl.token_texts(to_raw(SyntaxKind::Name));
                let exprs = list_expressions_of(stmt);
                let ghost ns = texts_of(*nl, SyntaxKind::Name);
                let ghost xs = list_expressions(*stmt);
                let mut i: usize = 0;
                while i < names.len()
                    invariant
                        env.wf(),
                        i <= names@.len(),
                        names@.len() == ns.len(),
                        forall|j: int| 0 <= j < ns.len() ==> #[trigger] names@[j]@ == ns[j],
                        exprs@.len() == xs.len(),
                        forall|j: int| 0 <= j < xs.len() ==> *exprs@[j] == xs[j],
                        local_fold(ns, xs, 0, old(env).view()) == local_fold(ns, xs, i as int, env.view()),
                    decreases names@.len() - i,
                {
                    let typ = if i < exprs.len() {
                        get_expression_type(exprs[i], env)
                    } else {
                        ValueType::Nil
                    };
                    env.set_local(names[i].clone(), typ);
                    i = i + 1;
                }
            },
            None => {},
        }
    } else if kind_is(stmt, SyntaxKind::Assign) {
        match stmt.first_node_of_kind(to_raw(SyntaxKind::VariableList)) {
            Some(vl) => {
                let ids = vl.nodes_of_kind(to_raw(SyntaxKind::Identifier));
                let exprs = list_expressions_of(stmt);
                let ghost is = nodes_of_kind(vl.children@, spec_raw(SyntaxKind::Identifier));
                let ghost xs = list_expressions(*stmt);
                let mut i: usize = 0;
                while i < ids.len()
                    invariant
                        env.wf(),
                        i <= ids@.len(),
                        ids@.len() == is.len(),
                        forall|j: int| 0 <= j < is.len() ==> *ids@[j] == is[j],
                        exprs@.len() == xs.len(),
                        forall|j: int| 0 <= j < xs.len() ==> *exprs@[j] == xs[j],
                        assign_fold(is, xs, 0, old(env).view()) == assign_fold(is, xs, i as int, env.view()),
                    decreases ids@.len() - i,
                {
                    let typ = if i < exprs.len() {
                        get_expression_type(exprs[i], env)
                    } else {
                        ValueType::Nil
                    };
                    let names = ids[i].token_texts(to_raw(SyntaxKind::Name));
                    proof {
                        assert(names@.map_values(|s: String| s@) =~= texts_of(is[i as int], SyntaxKind::Name));
                    }
                    assign_to_names(&names, typ, env);
                    i = i + 1;
                }
            },
            None => {},
        }
    } else if kind_is(stmt, SyntaxKind::FunctionDefinition) {
        let ghost e0 = env.view();
        let mut params: Vec<ValueType> = Vec::new();
        let param_list = stmt.first_node_of_kind(to_raw(SyntaxKind::ParameterList));
        let param_names: Vec<String> = match param_list {
            Some(pl) => pl.token_texts(to_raw(SyntaxKind::Parameter)),
            None => Vec::new(),
        };
        let mut i: usize = 0;
        while i < param_names.len()
            invariant
                i <= param_names@.len(),
                params@.len() == i,
                forall|j: int| 0 <= j < i ==> #[trigger] params@[j].view() == TypeView::Unknown,
            decreases param_names@.len() - i,
        {
            params.push(ValueType::Unknown);
            i = i + 1;
        }
        proof {
            lemma_views(params@);
            match param_list {
                Some(pl) => {
                    assert(param_names@.map_values(|s: String| s@) =~= texts_of(*pl, SyntaxKind::Parameter));
                    assert(views(params@) =~= Seq::new(
                        texts_of(*pl, SyntaxKind::Parameter).len(),
                        |i: int| TypeView::Unknown,
                    ));
                },
                None => {
                    assert(views(params@) =~= Seq::<TypeView>::empty());
                },
            }
        }
        let results = match stmt.first_node_of_kind(to_raw(SyntaxKind::Block)) {
            Some(block) => {
                env.push_scope();
                if param_list.is_some() {
                    set_unknown_locals(&param_names, env);
                }
                proof {
                    if param_list.is_none() {
                        assert(params_env(*stmt, e0) == env.view());
                    }
                }
                let ret = infer_return_types(block, env);
                process_block(block, env);
                env.pop_scope();
                ret
            },
            None => {
                let r: Vec<ValueType> = Vec::new();
                assert(views(r@) =~= Seq::<TypeView>::empty());
                r
            },
        };
        let func_type = ValueType::Function { params, results };
        assert(func_type.view() == function_type(*stmt, e0));
        match stmt.first_node_of_kind(to_raw(SyntaxKind::Identifier)) {
            Some(id) => {
                let names = id.token_texts(to_raw(SyntaxKind::Name));
                proof {
                    assert(names@.map_values(|s: String| s@) =~= texts_of(*id, SyntaxKind::Name));
                }
                if names.len() == 1 && stmt.has_kind(to_raw(SyntaxKind::LocalKeyword)) {
                    env.set_local(names[0].clone(), func_type);
                } else {
                    assign_to_names(&names, func_type, env);
                }
            },
            None => {},
        }
    } else if kind_is(stmt, SyntaxKind::DoBlock) || kind_is(stmt, SyntaxKind::WhileLoop) || kind_is(
        stmt,
        SyntaxKind::RepeatUntilLoop,
    ) {
        match stmt.first_node_of_kind(to_raw(SyntaxKind::Block)) {
            Some(block) => {
                env.push_scope();
                process_block(block, env);
                env.pop_scope();
            },
            None => {},
        }
    } else if kind_is(stmt, SyntaxKind::ForCountLoop) {
        match stmt.first_node_of_kind(to_raw(SyntaxKind::Block)) {
            Some(block) => {
                env.push_scope();
                let names = stmt.token_texts(to_raw(SyntaxKind::Name));
                if names.len() > 0 {
                    env.set_local(names[0].clone(), ValueType::Number);
                }
                process_block(block, env);
                env.pop_scope();
            },
            None => {},
        }
    } else if kind_is(stmt, SyntaxKind::ForInLoop) {
        match stmt.first_node_of_kind(to_raw(SyntaxKind::Block)) {
            Some(block) => {
                env.push_scope();
                match stmt.first_node_of_kind(to_raw(SyntaxKind::NameList)) {
                    Some(nl) => {
                        let names = nl.token_texts(to_raw(SyntaxKind::Name));
                        proof {
                            assert(names@.map_values(|s: String| s@) =~= texts_of(*nl, SyntaxKind::Name));
                        }
                        set_unknown_locals(&names, env);
                    },
                    None => {},
                }
                process_block(block, env);
                env.pop_scope();
            },
            None => {},
        }
    } else if kind_is(stmt, SyntaxKind::IfChain) {
        let branches = stmt.nodes_of_kind(to_raw(SyntaxKind::IfBranch));
        let ghost bs = nodes_of_kind(stmt.children@, spec_raw(SyntaxKind::IfBranch));
        let ghost e0 = env.view();
        let mut i: usize = 0;
        assert(bs.skip(0) =~= bs);
        while i < branches.len()
            invariant
                env.wf(),
                i <= branches@.len(),
                branches@.len() == bs.len(),
                forall|j: int| 0 <= j < bs.len() ==> *branches@[j] == bs[j],
                forall|j: int| 0 <= j < bs.len() ==> node_size(#[trigger] bs[j]) < node_size(*stmt),
                branches_env(bs, e0) == branches_env(bs.skip(i as int), env.view()),
            decreases branches@.len() - i,
        {
            let br = branches[i];
            proof {
                lemma_parts(*br);
                assert(bs.skip(i as int)[0] == bs[i as int]);
                assert(bs.skip(i as int).drop_first() =~= bs.skip(i + 1));
            }
            match br.first_node_of_kind(to_raw(SyntaxKind::Block)) {
                Some(block) => {
                    env.push_scope();
                    process_block(block, env);
                    env.pop_scope();
                },
                None => {},
            }
            i = i + 1;
        }
        match stmt.first_node_of_kind(to_raw(SyntaxKind::ElseBranch)) {
            Some(eb) => {
                proof {
                    lemma_parts(*eb);
                }
                match eb.first_node_of_kind(to_raw(SyntaxKind::Block)) {
                    Some(block) => {
                        env.push_scope();
                        process_block(block, env);
                        env.pop_scope();
                    },
                    None => {},
                }
            },
            None => {},
        }
    }
}

/// The current scope is the same, no scope was dropped, and every scope is
/// nested where it was.
pub open spec fn frame_kept(before: EnvView, after: EnvView) -> bool {
    &&& after.current == before.current
    &&& before.scopes.len() <= after.scopes.len()
    &&& forall|i: int|
        0 <= i < before.scopes.len() ==> #[trigger] after.scopes[i].parent == before.scopes[i].parent
}

proof fn lemma_defining_in_range(e: EnvView, idx: int, name: Seq<char>)
    requires
        0 <= idx < e.scopes.len(),
    ensures
        defining_scope(e, idx, name) matches Some(d) ==> 0 <= d <= idx,
    decreases idx,
{
    match parent_of(e, idx) {
        Some(p) => lemma_defining_in_range(e, p, name),
        None => {},
    }
}

proof fn lemma_with_local_frame(e: EnvView, idx: int, name: Seq<char>, t: TypeView)
    requires
        env_ok(e),
        0 <= idx < e.scopes.len(),
    ensures
        env_ok(with_local(e, idx, name, t)),
        frame_kept(e, with_local(e, idx, name, t)),
{
    let e2 = with_local(e, idx, name, t);
    assert forall|i: int| 0 <= i < e2.scopes.len() implies #[trigger] e2.scopes[i].parent == e.scopes[i].parent by {
    }
}

proof fn lemma_update_frame(e: EnvView, name: Seq<char>, t: TypeView)
    requires
        env_ok(e),
    ensures
        env_ok(env_update(e, name, t)),
        frame_kept(e, env_update(e, name, t)),
{
    lemma_defining_in_range(e, e.current, name);
    match defining_scope(e, e.current, name) {
        Some(d) => lemma_with_local_frame(e, d, name, t),
        None => {},
    }
}

proof fn lemma_assign_names_frame(names: Seq<Seq<char>>, t: TypeView, e: EnvView)
    requires
        env_ok(e),
    ensures
        env_ok(assign_names(names, t, e)),
        frame_kept(e, assign_names(names, t, e)),
{
    if names.len() == 1 {
        lemma_update_frame(e, names[0], t);
    } else if names.len() >= 2 {
        lemma_update_frame(e, names[0], with_field(env_lookup(e, names[0]), names[1], t));
    }
}

proof fn lemma_local_fold_frame(names: Seq<Seq<char>>, exprs: Seq<Node>, i: int, e: EnvView)
    requires
        env_ok(e),
    ensures
        env_ok(local_fold(names, exprs, i, e)),
        frame_kept(e, local_fold(names, exprs, i, e)),
    decreases names.len() - i,
{
    if 0 <= i < names.len() {
        let t = if i < exprs.len() {
            expr_type(exprs[i], e)
        } else {
            TypeView::Nil
        };
        lemma_with_local_frame(e, e.current, names[i], t);
        lemma_local_fold_frame(names, exprs, i + 1, with_local(e, e.current, names[i], t));
    }
}

proof fn lemma_assign_fold_frame(ids: Seq<Node>, exprs: Seq<Node>, i: int, e: EnvView)
    requires
        env_ok(e),
    ensures
        env_ok(assign_fold(ids, exprs, i, e)),
        frame_kept(e, assign_fold(ids, exprs, i, e)),
    decreases ids.len() - i,
{
    if 0 <= i < ids.len() {
        let t = if i < exprs.len() {
            expr_type(exprs[i], e)
        } else {
            TypeView::Nil
        };
        let names = texts_of(ids[i], SyntaxKind::Name);
        lemma_assign_names_frame(names, t, e);
        lemma_assign_fold_frame(ids, exprs, i + 1, assign_names(names, t, e));
    }
}

proof fn lemma_unknown_locals_frame(names: Seq<Seq<char>>, e: EnvView)
    requires
        env_ok(e),
    ensures
        env_ok(unknown_locals(names, e)),
        frame_kept(e, unknown_locals(names, e)),
    decreases names.len(),
{
    if names.len() > 0 {
        lemma_with_local_frame(e, e.current, names[0], TypeView::Unknown);
        lemma_unknown_locals_frame(names.drop_first(), with_local(e, e.current, names[0], TypeView::Unknown));
    }
}

/// A new scope, statements that keep it current, then leaving it: the scope
/// that was current before is current again.
proof fn lemma_inner_block_frame(e: EnvView, inner: EnvView, after: EnvView)
    requires
        env_ok(e),
        inner == env_push(e),
        env_ok(after),
        frame_kept(inner, after),
    ensures
        env_ok(env_pop(after)),
        frame_kept(e, env_pop(after)),
{
    assert(inner.scopes[inner.current].parent == Some(e.current));
    assert(after.scopes[inner.current].parent == Some(e.current));
    assert forall|i: int| 0 <= i < e.scopes.len() implies #[trigger] env_pop(after).scopes[i].parent
        == e.scopes[i].parent by {
        assert(inner.scopes[i] == e.scopes[i]);
    }
}

proof fn lemma_frame_trans(a: EnvView, b: EnvView, c: EnvView)
    requires
        frame_kept(a, b),
        frame_kept(b, c),
    ensures
        frame_kept(a, c),
{
    assert forall|i: int| 0 <= i < a.scopes.len() implies #[trigger] c.scopes[i].parent == a.scopes[i].parent by {
        assert(b.scopes[i].parent == a.scopes[i].parent);
    }
}

/// Every statement closes the scopes it opens: after it the scope that was
/// current is current again, and every scope is nested where it was.
pub proof fn law_statement_keeps_scope(n: Node, e: EnvView)
    requires
        env_ok(e),
    ensures
        env_ok(stmt_env(n, e)),
        frame_kept(e, stmt_env(n, e)),
    decreases node_size(n), 0nat,
{
    let k = n.kind;
    lemma_parts(n);
    if k == spec_raw(SyntaxKind::LocalAssignStatement) {
        match child_of_kind(n, SyntaxKind::NameList) {
            Some(nl) => lemma_local_fold_frame(texts_of(nl, SyntaxKind::Name), list_expressions(n), 0, e),
            None => {},
        }
    } else if k == spec_raw(SyntaxKind::Assign) {
        match child_of_kind(n, SyntaxKind::VariableList) {
            Some(vl) => lemma_assign_fold_frame(
                nodes_of_kind(vl.children@, spec_raw(SyntaxKind::Identifier)),
                list_expressions(n),
                0,
                e,
            ),
            None => {},
        }
    } else if k == spec_raw(SyntaxKind::FunctionDefinition) {
        let e4 = match child_of_kind(n, SyntaxKind::Block) {
            Some(b) => {
                lemma_parts(b);
                let inner = env_push(e);
                law_push_keeps_lookup(e, Seq::empty());
                let pe = params_env(n, e);
                match child_of_kind(n, SyntaxKind::ParameterList) {
                    Some(pl) => lemma_unknown_locals_frame(texts_of(pl, SyntaxKind::Parameter), inner),
                    None => {},
                }
                law_statements_keep_scope(statements_of(b), pe);
                lemma_frame_trans(inner, pe, stmts_env(statements_of(b), pe));
                lemma_inner_block_frame(e, inner, stmts_env(statements_of(b), pe));
                env_pop(stmts_env(statements_of(b), pe))
            },
            None => e,
        };
        let ft = function_type(n, e);
        match child_of_kind(n, SyntaxKind::Identifier) {
            Some(id) => {
                let names = texts_of(id, SyntaxKind::Name);
                if names.len() == 1 && has_kind(n.children@, spec_raw(SyntaxKind::LocalKeyword)) {
                    lemma_with_local_frame(e4, e4.current, names[0], ft);
                    lemma_frame_trans(e, e4, with_local(e4, e4.current, names[0], ft));
                } else {
                    lemma_assign_names_frame(names, ft, e4);
                    lemma_frame_trans(e, e4, assign_names(names, ft, e4));
                }
            },
            None => {},
        }
    } else if k == spec_raw(SyntaxKind::DoBlock) || k == spec_raw(SyntaxKind::WhileLoop) || k
        == spec_raw(SyntaxKind::RepeatUntilLoop) {
        match child_of_kind(n, SyntaxKind::Block) {
            Some(b) => {
                lemma_parts(b);
                let inner = env_push(e);
                law_push_keeps_lookup(e, Seq::empty());
                law_statements_keep_scope(statements_of(b), inner);
                lemma_inner_block_frame(e, inner, stmts_env(statements_of(b), inner));
            },
            None => {},
        }
    } else if k == spec_raw(SyntaxKind::ForCountLoop) {
        match child_of_kind(n, SyntaxKind::Block) {
            Some(b) => {
                lemma_parts(b);
                let e1 = env_push(e);
                law_push_keeps_lookup(e, Seq::empty());
                let names = texts_of(n, SyntaxKind::Name);
                let e2 = if names.len() > 0 {
                    lemma_with_local_frame(e1, e1.current, names[0], TypeView::Number);
                    with_local(e1, e1.current, names[0], TypeView::Number)
                } else {
                    e1
                };
                law_statements_keep_scope(statements_of(b), e2);
                if names.len() > 0 {
                    lemma_frame_trans(e1, e2, stmts_env(statements_of(b), e2));
                }
                lemma_inner_block_frame(e, e1, stmts_env(statements_of(b), e2));
            },
            None => {},
        }
    } else if k == spec_raw(SyntaxKind::ForInLoop) {
        match child_of_kind(n, SyntaxKind::Block) {
            Some(b) => {
                lemma_parts(b);
                let e1 = env_push(e);
                law_push_keeps_lookup(e, Seq::empty());
                let e2 = match child_of_kind(n, SyntaxKind::NameList) {
                    Some(nl) => {
                        lemma_unknown_locals_frame(texts_of(nl, SyntaxKind::Name), e1);
                        unknown_locals(texts_of(nl, SyntaxKind::Name), e1)
                    },
                    None => e1,
                };
                law_statements_keep_scope(statements_of(b), e2);
                lemma_frame_trans(e1, e2, stmts_env(statements_of(b), e2));
                lemma_inner_block_frame(e, e1, stmts_env(statements_of(b), e2));
            },
            None => {},
        }
    } else if k == spec_raw(SyntaxKind::IfChain) {
        let branches = nodes_of_kind(n.children@, spec_raw(SyntaxKind::IfBranch));
        lemma_branches_keep_scope(branches, e);
        let e1 = branches_env(branches, e);
        match child_of_kind(n, SyntaxKind::ElseBranch) {
            Some(eb) => {
                lemma_parts(eb);
                match child_of_kind(eb, SyntaxKind::Block) {
                    Some(b) => {
                        lemma_parts(b);
                        let inner = env_push(e1);
                        law_push_keeps_lookup(e1, Seq::empty());
                        law_statements_keep_scope(statements_of(b), inner);
                        lemma_inner_block_frame(e1, inner, stmts_env(statements_of(b), inner));
                        lemma_frame_trans(e, e1, env_pop(stmts_env(statements_of(b), inner)));
                    },
                    None => {},
                }
            },
            None => {},
        }
    }
}

/// Statements one after another close the scopes they open: after them the
/// scope that was current is current again, and every scope is nested where
/// it was.
pub proof fn law_statements_keep_scope(stmts: Seq<Node>, e: EnvView)
    requires
        env_ok(e),
    ensures
        env_ok(stmts_env(stmts, e)),
        frame_kept(e, stmts_env(stmts, e)),
    decreases nodes_size(stmts), 1nat,
{
    if stmts.len() > 0 {
        lemma_nodes_size(stmts);
        law_statement_keeps_scope(stmts[0], e);
        let e1 = stmt_env(stmts[0], e);
        law_statements_keep_scope(stmts.drop_first(), e1);
        lemma_frame_trans(e, e1, stmts_env(stmts.drop_first(), e1));
    }
}

proof fn lemma_branches_keep_scope(branches: Seq<Node>, e: EnvView)
    requires
        env_ok(e),
    ensures
        env_ok(branches_env(branches, e)),
        frame_kept(e, branches_env(branches, e)),
    decreases nodes_size(branches), 1nat,
{
    if branches.len() > 0 {
        let br = branches[0];
        lemma_nodes_size(branches);
        lemma_parts(br);
        let e1 = match child_of_kind(br, SyntaxKind::Block) {
            Some(b) => {
                lemma_parts(b);
                let inner = env_push(e);
                law_push_keeps_lookup(e, Seq::empty());
                law_statements_keep_scope(statements_of(b), inner);
                lemma_inner_block_frame(e, inner, stmts_env(statements_of(b), inner));
                env_pop(stmts_env(statements_of(b), inner))
            },
            None => e,
        };
        lemma_branches_keep_scope(branches.drop_first(), e1);
        lemma_frame_trans(e, e1, branches_env(branches.drop_first(), e1));
    }
}

/// Updates the environment for each statement of a block, in order.
pub fn process_block(block: &Node, env: &mut TypeEnvironment)
    requires
        old(env).wf(),
    ensures
        final(env).wf(),
        final(env).view() == stmts_env(statements_of(*block), old(env).view()),
        frame_kept(old(env).view(), final(env).view()),
    decreases node_size(*block),
{
    proof {
        lemma_parts(*block);
        law_statements_keep_scope(statements_of(*block), old(env).view());
    }
    let stmts = block.nodes_in_class(NodeClass::Statement);
    let ghost all = statements_of(*block);
    let mut i: usize = 0;
    assert(all.skip(0) =~= all);
    while i < stmts.len()
        invariant
            env.wf(),
            i <= stmts@.len(),
            stmts@.len() == all.len(),
            forall|j: int| 0 <= j < stmts@.len() ==> *stmts@[j] == all[j],
            forall|j: int| 0 <= j < all.len() ==> node_size(#[trigger] all[j]) < node_size(*block),
            stmts_env(all, old(env).view()) == stmts_env(all.skip(i as int), env.view()),
        decreases stmts@.len() - i,
    {
        proof {
            assert(all.skip(i as int)[0] == all[i as int]);
            assert(all.skip(i as int).drop_first() =~= all.skip(i + 1));
        }
        process_statement(stmts[i], env);
        i = i + 1;
    }
}

/// The environment before anything was read: one empty scope, no globals.
pub open spec fn initial_env() -> EnvView {
    EnvView {
        scopes: seq![ScopeView { parent: None, locals: Map::empty() }],
        current: 0,
        globals: Map::empty(),
    }
}

/// The types that the statements of a tree's root block give, from an empty
/// environment; None when the root is no block.
pub fn types_of_tree(root: &Node) -> (r: Option<TypeEnvironment>)
    ensures
        root.kind == spec_raw(SyntaxKind::Block) ==> (r matches Some(env) && env.wf() && env.view()
            == stmts_env(statements_of(*root), initial_env())),
        root.kind != spec_raw(SyntaxKind::Block) ==> r is None,
{
    if !kind_is(root, SyntaxKind::Block) {
        return None;
    }
    let mut env = TypeEnvironment::new();
    process_block(root, &mut env);
    Some(env)
}

/// The types of a green tree: those of the statements of its root block,
/// from an empty environment; None when the root is no block.
pub fn get_types(green: &GreenNode, _filename: &str) -> (r: Option<TypeEnvironment>)
    ensures
        r is Some <==> green_kind(*green) == spec_raw(SyntaxKind::Block),
        r matches Some(env) ==> env.wf() && exists|root: Node|
            walk_of(root) == green_walk(*green) && root.kind == spec_raw(SyntaxKind::Block)
                && env.view() == stmts_env(statements_of(root), initial_env()),
{
    let root = tree_of(green);
    types_of_tree(&root)
}

} // verus!
