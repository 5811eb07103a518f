use vstd::prelude::*;

use crate::ast::Ast;
use crate::identifier::Identifier;
use crate::node_id::NodeId;
use crate::node_value::{CompositeValue, LiteralValue, NodeValue};

verus! {

/// The value of a node of a tree that remembers where each node was
/// written.
#[derive(Debug)]
pub enum SpannedValue<Span> {
    Composite { children: Vec<(Identifier, SpannedAst<Span>)>, value: CompositeValue },
    Literal(LiteralValue),
}

/// A node of a localization tree, with the place (`span`) where it was
/// written.
#[derive(Debug)]
pub struct SpannedAst<Span> {
    pub identifier: Identifier,
    pub value: SpannedValue<Span>,
    pub span: Span,
    pub id: NodeId,
    pub parent: Option<NodeId>,
}

/// `a` is the tree `s` without the places: the same identifiers, ids,
/// parents and values, with the children in the same order.
pub open spec fn is_ast_of<Span>(a: Ast, s: SpannedAst<Span>) -> bool
    decreases s,
{
    &&& a.identifier == s.identifier
    &&& a.id == s.id
    &&& a.parent == s.parent
    &&& match s.value {
        SpannedValue::Literal(l) => a.value == NodeValue::Literal(l),
        SpannedValue::Composite { children, value } => match a.value {
            NodeValue::Composite { children: ac, value: av } => {
                &&& av == value
                &&& ac@.len() == children@.len()
                &&& forall|i: int| 0 <= i < children@.len() ==> (#[trigger] ac@[i]).0 == children@[i].0
                    && is_ast_of(ac@[i].1, children@[i].1)
            },
            _ => false,
        },
    }
}

/// The nodes of the tree `s` in the order a stack visits them: the node,
/// then the trees of its children from the last to the first.
pub open spec fn visit_order<Span>(s: SpannedAst<Span>, k: int) -> Seq<SpannedAst<Span>>
    decreases s, k,
{
    match s.value {
        SpannedValue::Composite { children, .. } => if 0 < k <= children@.len() {
            visit_order(s, k - 1) + visit_order(children@[children@.len() - k].1, kid_count(children@[children@.len() - k].1))
        } else {
            seq![s]
        },
        SpannedValue::Literal(_) => seq![s],
    }
}

/// The number of children of `s`.
pub open spec fn kid_count<Span>(s: SpannedAst<Span>) -> int {
    match s.value {
        SpannedValue::Composite { children, .. } => children@.len() as int,
        SpannedValue::Literal(_) => 0,
    }
}

impl<Span> SpannedAst<Span> {
    /// A node with a fresh random id and no parent, whose children are
    /// linked to it.
    pub fn new(identifier: Identifier, span: Span, value: SpannedValue<Span>) -> (r: Self)
        ensures
            r.identifier == identifier,
            r.span == span,
            r.parent is None,
            match (value, r.value) {
                (SpannedValue::Literal(a), SpannedValue::Literal(b)) => a == b,
                (SpannedValue::Composite { children: a, value: av }, SpannedValue::Composite { children: b, value: bv }) => {
                    &&& av == bv
                    &&& a@.len() == b@.len()
                    &&& forall|i: int| 0 <= i < a@.len() ==> (#[trigger] b@[i]) == (a@[i].0, SpannedAst { parent: Some(r.id), ..a@[i].1 })
                },
                _ => false,
            },
    {
        let id = NodeId::new();
        let value = match value {
            SpannedValue::Composite { children, value: kind } => {
                let mut rest = children;
                let ghost all = rest@;
                let mut linked: Vec<(Identifier, SpannedAst<Span>)> = Vec::new();
                while rest.len() > 0
                    invariant
                        linked@.len() + rest@.len() == all.len(),
                        rest@ == all.subrange(linked@.len() as int, all.len() as int),
                        forall|i: int| 0 <= i < linked@.len() ==> #[trigger] linked@[i] == (all[i].0, SpannedAst { parent: Some(id), ..all[i].1 }),
                    decreases rest@.len(),
                {
                    let ghost k = linked@.len() as int;
                    let (key, mut child) = rest.remove(0);
                    assert((key, child) == all[k]);
                    child.attach_to_parent(id);
                    linked.push((key, child));
                    assert(rest@ =~= all.subrange(k + 1, all.len() as int));
                }
                SpannedValue::Composite { children: linked, value: kind }
            },
            SpannedValue::Literal(l) => SpannedValue::Literal(l),
        };
        SpannedAst { identifier, value, span, parent: None, id }
    }

    /// Links this node to the parent with `parent_id`.
    pub fn attach_to_parent(&mut self, parent_id: NodeId)
        ensures
            *final(self) == (SpannedAst { parent: Some(parent_id), ..*old(self) }),
    {
        self.parent = Some(parent_id);
    }

    /// The children of a composite node, in order; `None` for a literal.
    pub fn children(&self) -> (r: Option<Vec<&Self>>)
        ensures
            match (self.value, r) {
                (SpannedValue::Composite { children, .. }, Some(v)) => v@.len() == children@.len()
                    && forall|i: int| 0 <= i < v@.len() ==> *(#[trigger] v@[i]) == children@[i].1,
                (SpannedValue::Literal(_), None) => true,
                _ => false,
            },
    {
        match &self.value {
            SpannedValue::Composite { children, .. } => {
                let mut v: Vec<&Self> = Vec::new();
                let mut i: usize = 0;
                while i < children.len()
                    invariant
                        i <= children@.len(),
                        v@.len() == i,
                        forall|k: int| 0 <= k < i ==> *(#[trigger] v@[k]) == children@[k].1,
                    decreases children@.len() - i,
                {
                    v.push(&children[i].1);
                    i = i + 1;
                }
                Some(v)
            },
            SpannedValue::Literal(_) => None,
        }
    }

    /// Appends the nodes of the tree in the order a stack visits them.
    fn visit_into<'a>(&'a self, out: &mut Vec<&'a Self>)
        ensures
            final(out)@.map_values(|n: &Self| *n) == old(out)@.map_values(|n: &Self| *n) + visit_order(*self, kid_count(*self)),
        decreases self,
    {
        let ghost start = old(out)@.map_values(|n: &Self| *n);
        out.push(self);
        assert(out@.map_values(|n: &Self| *n) =~= start + visit_order(*self, 0));
        match &self.value {
            SpannedValue::Composite { children, .. } => {
                let n = children.len();
                let mut k: usize = 0;
                while k < n
                    invariant
                        self.value == (SpannedValue::Composite { children: *children, value: self.value->value }),
                        n == children@.len(),
                        k <= n,
                        out@.map_values(|n: &Self| *n) == start + visit_order(*self, k as int),
                    decreases n - k,
                {
                    let i = n - 1 - k;
                    assert(decreases_to!(self => self.value));
                    assert(decreases_to!(self.value => self.value->children));
                    assert(decreases_to!(*children => children@));
                    assert(decreases_to!(children@ => children@[i as int]));
                    assert(decreases_to!(children@[i as int] => children@[i as int].1));
                    let ghost before = out@.map_values(|n: &Self| *n);
                    children[i].1.visit_into(out);
                    assert(out@.map_values(|n: &Self| *n) =~= start + visit_order(*self, k + 1));
                    k = k + 1;
                }
            },
            SpannedValue::Literal(_) => {},
        }
    }

    /// All nodes of the tree, each once, in the order a stack visits them:
    /// the node first, then the trees of its children from the last to the
    /// first.
    pub fn traverse(&self) -> (r: Vec<&Self>)
        ensures
            r@.map_values(|n: &Self| *n) == visit_order(*self, kid_count(*self)),
    {
        let mut out: Vec<&Self> = Vec::new();
        self.visit_into(&mut out);
        assert(out@.map_values(|n: &Self| *n) =~= visit_order(*self, kid_count(*self)));
        out
    }
}

impl Ast {
    /// The tree without the places where its nodes were written.
    #[verifier::loop_isolation(false)]
    pub fn from_spanned<Span>(spanned_ast: SpannedAst<Span>) -> (r: Ast)
        ensures
            is_ast_of(r, spanned_ast),
        decreases spanned_ast,
    {
        let ghost orig = spanned_ast;
        let value = match spanned_ast.value {
            SpannedValue::Composite { children, value } => {
                let mut rest = children;
                let ghost all = rest@;
                let mut out: Vec<(Identifier, Ast)> = Vec::new();
                while rest.len() > 0
                    invariant
                        orig.value == (SpannedValue::Composite { children: children, value }),
                        all == children@,
                        out@.len() + rest@.len() == all.len(),
                        rest@ == all.subrange(out@.len() as int, all.len() as int),
                        forall|i: int| 0 <= i < out@.len() ==> (#[trigger] out@[i]).0 == all[i].0 && is_ast_of(out@[i].1, all[i].1),
                    decreases rest@.len(),
                {
                    let ghost k = out@.len() as int;
                    let (key, child) = rest.remove(0);
                    assert((key, child) == all[k]);
                    assert(decreases_to!(orig => orig.value));
                    assert(decreases_to!(orig.value => orig.value->children));
                    assert(decreases_to!(children => children@));
                    assert(decreases_to!(children@ => children@[k]));
                    assert(decreases_to!(children@[k] => children@[k].1));
                    assert(decreases_to!(orig => child));
                    let a = Ast::from_spanned(child);
                    out.push((key, a));
                    assert(rest@ =~= all.subrange(k + 1, all.len() as int));
                }
                NodeValue::Composite { children: out, value }
            },
            SpannedValue::Literal(literal) => NodeValue::Literal(literal),
        };
        Ast { identifier: spanned_ast.identifier, id: spanned_ast.id, parent: spanned_ast.parent, value }
    }
}

} // verus!
