use vstd::prelude::*;

use crate::identifier::{Identifier, IdentifierView, Path};
use crate::node_id::NodeId;
use crate::node_value::{CompositeValue, LiteralValue, NodeValue};
use crate::unique_ids::{lemma_ids_up_to_links, tree_ids};

verus! {

/// A node of a localization tree.
#[derive(Debug)]
pub struct Ast {
    pub identifier: Identifier,
    pub value: NodeValue,
    pub id: NodeId,
    pub parent: Option<NodeId>,
}

/// What a node is, apart from its children: a literal with its value, or a
/// composite of some kind.
pub enum Kind {
    Literal(crate::node_value::LiteralValueView),
    Composite(CompositeValue),
}

/// A node's id and kind.
pub type Shape = (NodeId, Kind);

/// The index of the first entry of `kids` whose key is `id`.
pub open spec fn find_key<T>(kids: Seq<(Identifier, T)>, id: IdentifierView) -> Option<int>
    decreases kids.len(),
{
    if kids.len() == 0 {
        None
    } else if kids[0].0@ == id {
        Some(0)
    } else {
        match find_key(kids.drop_first(), id) {
            Some(i) => Some(i + 1),
            None => None,
        }
    }
}

/// No key occurs twice among `kids`.
pub open spec fn unique_keys<T>(kids: Seq<(Identifier, T)>) -> bool {
    forall|i: int, j: int| 0 <= i < kids.len() && 0 <= j < kids.len() && i != j
        ==> kids[i].0@ != kids[j].0@
}

impl Ast {
    /// The children of the node with their keys (none for a literal).
    pub open spec fn kids(self) -> Seq<(Identifier, Ast)> {
        match self.value {
            NodeValue::Composite { children, .. } => children@,
            NodeValue::Literal(_) => Seq::empty(),
        }
    }

    /// The child under `id`, if any.
    pub open spec fn child(self, id: IdentifierView) -> Option<Ast> {
        match find_key(self.kids(), id) {
            Some(i) => Some(self.kids()[i].1),
            None => None,
        }
    }

    /// What the node is, apart from its children.
    pub open spec fn kind(self) -> Kind {
        match self.value {
            NodeValue::Composite { value, .. } => Kind::Composite(value),
            NodeValue::Literal(l) => Kind::Literal(l@),
        }
    }

    /// The node's id and kind.
    pub open spec fn shape(self) -> Shape {
        (self.id, self.kind())
    }

    /// The descendant reached by following `p` from this node.
    pub open spec fn lookup(self, p: Seq<IdentifierView>) -> Option<Ast>
        decreases p.len(),
    {
        if p.len() == 0 {
            Some(self)
        } else {
            match self.child(p[0]) {
                Some(c) => c.lookup(p.drop_first()),
                None => None,
            }
        }
    }

    /// The parent link of the descendant at `p`, if there is one.
    pub open spec fn parent_at(self, p: Seq<IdentifierView>) -> Option<Option<NodeId>> {
        match self.lookup(p) {
            Some(n) => Some(n.parent),
            None => None,
        }
    }

    /// The shape of the descendant at `p`, if there is one.
    pub open spec fn shape_at(self, p: Seq<IdentifierView>) -> Option<Shape> {
        match self.lookup(p) {
            Some(n) => Some(n.shape()),
            None => None,
        }
    }

    /// Well-formed: in every composite node, each child is kept under its
    /// own identifier and no identifier occurs twice.
    pub open spec fn wf(self) -> bool
        decreases self,
    {
        match self.value {
            NodeValue::Composite { children, .. } => {
                &&& unique_keys(children@)
                &&& forall|i: int| 0 <= i < children@.len() ==> (#[trigger] children@[i]).0@ == children@[i].1.identifier@
                &&& forall|i: int| 0 <= i < children@.len() ==> (#[trigger] children@[i]).1.wf()
            },
            NodeValue::Literal(_) => true,
        }
    }
}


/// `find_key` finds the first entry with the key, and only such an entry.
pub proof fn lemma_find_key<T>(kids: Seq<(Identifier, T)>, id: IdentifierView)
    ensures
        match find_key(kids, id) {
            Some(i) => 0 <= i < kids.len() && kids[i].0@ == id
                && forall|j: int| 0 <= j < i ==> kids[j].0@ != id,
            None => forall|j: int| 0 <= j < kids.len() ==> kids[j].0@ != id,
        },
    decreases kids.len(),
{
    if kids.len() > 0 {
        lemma_find_key(kids.drop_first(), id);
        if kids[0].0@ != id {
            assert forall|j: int| 1 <= j < kids.len() implies kids[j].0@ == kids.drop_first()[j - 1].0@ by {}
        }
    }
}

/// Replacing an entry by one with the same key does not change where any
/// key is found.
pub proof fn lemma_find_key_update<T>(kids: Seq<(Identifier, T)>, i: int, e: (Identifier, T), id: IdentifierView)
    requires
        0 <= i < kids.len(),
        e.0@ == kids[i].0@,
    ensures
        find_key(kids.update(i, e), id) == find_key(kids, id),
{
    let u = kids.update(i, e);
    lemma_find_key(kids, id);
    lemma_find_key(u, id);
    assert forall|j: int| 0 <= j < kids.len() implies #[trigger] u[j].0@ == kids[j].0@ by {}
    match find_key(kids, id) {
        Some(x) => {
            match find_key(u, id) {
                Some(y) => {
                    if y < x {
                        assert(u[y].0@ == kids[y].0@);
                    } else if y > x {
                        assert(u[x].0@ == kids[x].0@);
                    }
                },
                None => {
                    assert(u[x].0@ == kids[x].0@);
                },
            }
        },
        None => {
            match find_key(u, id) {
                Some(y) => {
                    assert(u[y].0@ == kids[y].0@);
                },
                None => {},
            }
        },
    }
}

/// Appending an entry with a new key does not change where the other keys
/// are found, and the new key is found at the end.
pub proof fn lemma_find_key_push<T>(kids: Seq<(Identifier, T)>, e: (Identifier, T), id: IdentifierView)
    requires
        find_key(kids, e.0@) is None,
    ensures
        find_key(kids.push(e), id) == (if id == e.0@ { Some(kids.len() as int) } else { find_key(kids, id) }),
{
    let u = kids.push(e);
    lemma_find_key(kids, id);
    lemma_find_key(kids, e.0@);
    lemma_find_key(u, id);
    assert forall|j: int| 0 <= j < kids.len() implies #[trigger] u[j].0@ == kids[j].0@ by {}
    assert(u[kids.len() as int] == e);
    match find_key(u, id) {
        Some(y) => {
            match find_key(kids, id) {
                Some(x) => {
                    if y < x {
                        assert(u[y].0@ == kids[y].0@);
                    } else if y > x {
                        assert(u[x].0@ == kids[x].0@);
                    }
                },
                None => {
                    if y < kids.len() {
                        assert(u[y].0@ == kids[y].0@);
                    }
                },
            }
        },
        None => {
            match find_key(kids, id) {
                Some(x) => {
                    assert(u[x].0@ == kids[x].0@);
                },
                None => {},
            }
        },
    }
}

impl Ast {
    /// The shape at a non-empty path is the shape, in the child under its
    /// first identifier, at the rest of the path.
    pub proof fn lemma_shape_at_cons(self, p: Seq<IdentifierView>)
        requires
            p.len() > 0,
        ensures
            self.shape_at(p) == match self.child(p[0]) {
                Some(c) => c.shape_at(p.drop_first()),
                None => None,
            },
    {
    }

    /// The parent link at a non-empty path is the parent link, in the child
    /// under its first identifier, at the rest of the path.
    pub proof fn lemma_parent_at_cons(self, p: Seq<IdentifierView>)
        requires
            p.len() > 0,
        ensures
            self.parent_at(p) == match self.child(p[0]) {
                Some(c) => c.parent_at(p.drop_first()),
                None => None,
            },
            self.lookup(p) == match self.child(p[0]) {
                Some(c) => c.lookup(p.drop_first()),
                None => None,
            },
    {
    }

    /// Two nodes with the same value have the same parent links strictly
    /// below.
    pub proof fn lemma_same_value_same_parents(self, other: Ast, p: Seq<IdentifierView>)
        requires
            self.value == other.value,
            p.len() > 0,
        ensures
            self.parent_at(p) == other.parent_at(p),
            self.lookup(p) == other.lookup(p),
    {
        assert(self.child(p[0]) == other.child(p[0]));
    }

    /// Two nodes with the same id and value have the same shapes everywhere
    /// below.
    pub proof fn lemma_same_value_same_shapes(self, other: Ast, p: Seq<IdentifierView>)
        requires
            self.value == other.value,
            self.id == other.id,
        ensures
            self.shape_at(p) == other.shape_at(p),
    {
        if p.len() > 0 {
            assert(self.child(p[0]) == other.child(p[0]));
        }
    }

    /// The node can take `node` as a new child: it is a composite, and the
    /// identifier of `node` is a field name for a struct and a tuple index
    /// otherwise.
    pub open spec fn can_adopt(self, node: Ast) -> bool {
        match self.value {
            NodeValue::Composite { value, .. } => match value {
                CompositeValue::Struct => node.identifier is Field,
                _ => node.identifier is TupleIndex,
            },
            NodeValue::Literal(_) => false,
        }
    }

    /// Merging `other` into this node succeeds: each child of `other` either
    /// merges into the child under the same identifier, or can be adopted.
    pub open spec fn mergeable(self, other: Ast) -> bool
        decreases other,
    {
        match other.value {
            NodeValue::Composite { children, .. } =>
                forall|i: int| 0 <= i < children@.len() ==> match self.child((#[trigger] children@[i]).1.identifier@) {
                    Some(c) => c.mergeable(children@[i].1),
                    None => self.can_adopt(children@[i].1),
                },
            NodeValue::Literal(_) => true,
        }
    }

    /// The child under `identifier`, if any.
    pub fn get(&self, identifier: &Identifier) -> (r: Option<&Ast>)
        ensures
            match r {
                Some(n) => self.child(identifier@) == Some(*n),
                None => self.child(identifier@) is None,
            },
    {
        match &self.value {
            NodeValue::Composite { children, .. } => {
                proof { lemma_find_key(children@, identifier@); }
                match find_index(children, identifier) {
                    Some(i) => Some(&children[i].1),
                    None => None,
                }
            },
            NodeValue::Literal(_) => None,
        }
    }

    /// The descendant reached by following `path` from this node.
    pub fn by_path(&self, path: &Path) -> (r: Option<&Ast>)
        ensures
            match r {
                Some(n) => self.lookup(path@) == Some(*n),
                None => self.lookup(path@) is None,
            },
    {
        let ids = path.iter();
        let mut cur = self;
        let mut i: usize = 0;
        assert(path@.skip(0) =~= path@);
        while i < ids.len()
            invariant
                ids@ == path.0@,
                i <= ids@.len(),
                self.lookup(path@) == cur.lookup(path@.skip(i as int)),
            decreases ids@.len() - i,
        {
            let ghost q = path@.skip(i as int);
            assert(q[0] == ids@[i as int]@);
            assert(q.drop_first() =~= path@.skip(i + 1));
            match cur.get(&ids[i]) {
                Some(c) => {
                    cur = c;
                },
                None => {
                    return None;
                },
            }
            i = i + 1;
        }
        assert(path@.skip(ids@.len() as int) =~= Seq::<IdentifierView>::empty());
        Some(cur)
    }

    /// Links this node to the parent with `parent_id`.
    pub fn attach_to_parent(&mut self, parent_id: NodeId)
        ensures
            final(self).parent == Some(parent_id),
            final(self).identifier == old(self).identifier,
            final(self).value == old(self).value,
            final(self).id == old(self).id,
    {
        self.parent = Some(parent_id);
    }

    /// Unlinks this node from its parent.
    pub fn detach_from_parent(&mut self)
        ensures
            final(self).parent is None,
            final(self).identifier == old(self).identifier,
            final(self).value == old(self).value,
            final(self).id == old(self).id,
    {
        self.parent = None;
    }
}

/// The nodes of the tree `node`, each once, in pre-order: the node, then
/// the nodes below its first `k` children, child by child.
pub open spec fn nodes_upto(node: Ast, k: int) -> Seq<Ast>
    decreases node, k,
{
    match node.value {
        NodeValue::Composite { children, .. } => if 0 < k <= children@.len() {
            nodes_upto(node, k - 1) + nodes_upto(children@[k - 1].1, children@[k - 1].1.kids().len() as int)
        } else {
            seq![node]
        },
        NodeValue::Literal(_) => seq![node],
    }
}

/// All the nodes of the tree `node`, each once, in pre-order.
pub open spec fn tree_nodes(node: Ast) -> Seq<Ast> {
    nodes_upto(node, node.kids().len() as int)
}

/// The nodes that `refs` point to.
pub open spec fn derefs(refs: Seq<&Ast>) -> Seq<Ast> {
    refs.map_values(|n: &Ast| *n)
}

/// `kids` with the entry `e` stored under its key: replacing the entry under
/// that key where there is one, appended otherwise.
pub open spec fn insert_kid(kids: Seq<(Identifier, Ast)>, e: (Identifier, Ast)) -> Seq<(Identifier, Ast)> {
    match find_key(kids, e.0@) {
        Some(i) => kids.update(i, e),
        None => kids.push(e),
    }
}

/// `node` linked to the parent with the id `parent`.
pub open spec fn adopted(node: Ast, parent: NodeId) -> Ast {
    Ast { identifier: node.identifier, value: node.value, id: node.id, parent: Some(parent) }
}

/// The shape at `p` after merging `b` into `a`: that of `a` where `a` has
/// a node at `p`, that of `b` otherwise.
pub open spec fn merged_shape(a: Ast, b: Ast, p: Seq<IdentifierView>) -> Option<Shape> {
    if a.shape_at(p) is Some {
        a.shape_at(p)
    } else {
        b.shape_at(p)
    }
}

/// The parent link at `p` after merging `b` into `a`: that of `a` where
/// `a` has a node at `p`; a node of `b` taken over right under a node of
/// `a` links to that node; the nodes below it keep the links they had in
/// `b`.
pub open spec fn merged_parent(a: Ast, b: Ast, p: Seq<IdentifierView>) -> Option<Option<NodeId>>
    decreases p.len(),
{
    if a.lookup(p) is Some {
        a.parent_at(p)
    } else if b.lookup(p) is None || p.len() == 0 {
        None
    } else {
        match a.child(p[0]) {
            Some(x) => match b.child(p[0]) {
                Some(y) => merged_parent(x, y, p.drop_first()),
                None => None,
            },
            None => if p.len() == 1 {
                Some(Some(a.id))
            } else {
                b.parent_at(p)
            },
        }
    }
}

/// The parent link at `p` when `c` is merged into the child of `a` under
/// the identifier of `c`, or taken over as a new child of `a`.
pub open spec fn child_merged_parent(a: Ast, c: Ast, p: Seq<IdentifierView>) -> Option<Option<NodeId>> {
    if a.lookup(p) is Some {
        a.parent_at(p)
    } else if p.len() > 0 && p[0] == c.identifier@ {
        match a.child(p[0]) {
            Some(x) => merged_parent(x, c, p.drop_first()),
            None => if p.len() == 1 {
                Some(Some(a.id))
            } else {
                c.parent_at(p.drop_first())
            },
        }
    } else {
        None
    }
}

/// The parent link at `p` while the entries `all[m..]` have been merged
/// into `a`.
pub open spec fn partly_merged_parent(a: Ast, all: Seq<(Identifier, Ast)>, m: int, p: Seq<IdentifierView>) -> Option<Option<NodeId>> {
    if a.lookup(p) is Some {
        a.parent_at(p)
    } else if p.len() > 0 {
        match find_key(all.subrange(m, all.len() as int), p[0]) {
            Some(j) => match a.child(p[0]) {
                Some(x) => merged_parent(x, all[m + j].1, p.drop_first()),
                None => if p.len() == 1 {
                    Some(Some(a.id))
                } else {
                    all[m + j].1.parent_at(p.drop_first())
                },
            },
            None => None,
        }
    } else {
        None
    }
}

/// The shape at `p` while the entries `all[m..]` have been merged into `a`.
pub open spec fn partly_merged_shape(a: Ast, all: Seq<(Identifier, Ast)>, m: int, p: Seq<IdentifierView>) -> Option<Shape> {
    if a.shape_at(p) is Some {
        a.shape_at(p)
    } else if p.len() > 0 {
        match find_key(all.subrange(m, all.len() as int), p[0]) {
            Some(j) => all[m + j].1.shape_at(p.drop_first()),
            None => None,
        }
    } else {
        None
    }
}

proof fn lemma_find_key_cons<T>(e: (Identifier, T), rest: Seq<(Identifier, T)>, id: IdentifierView)
    ensures
        find_key(seq![e] + rest, id) == (if e.0@ == id { Some(0int) } else {
            match find_key(rest, id) {
                Some(i) => Some(i + 1),
                None => None,
            }
        }),
{
    assert((seq![e] + rest).drop_first() =~= rest);
}

impl Ast {
    /// Stores `node` as a child under its identifier, replacing the child
    /// that was stored there, and links it to this node.
    pub fn add_child(&mut self, node: Ast)
        requires
            old(self).can_adopt(node),
        ensures
            final(self).identifier == old(self).identifier,
            final(self).id == old(self).id,
            final(self).parent == old(self).parent,
            final(self).shape() == old(self).shape(),
            final(self).kids() == insert_kid(old(self).kids(), (node.identifier, adopted(node, old(self).id))),
    {
        let mut node = node;
        node.attach_to_parent(self.id);
        let key = node.identifier.clone();
        let mut v = NodeValue::Literal(LiteralValue::Bool(false));
        std::mem::swap(&mut self.value, &mut v);
        match v {
            NodeValue::Composite { mut children, value } => {
                let ghost old_kids = children@;
                proof { lemma_find_key(old_kids, key@); }
                match find_index(&children, &key) {
                    Some(i) => {
                        children.set(i, (key, node));
                    },
                    None => {
                        children.push((key, node));
                    },
                }
                self.value = NodeValue::Composite { children, value };
            },
            NodeValue::Literal(l) => {
                self.value = NodeValue::Literal(l);
            },
        }
    }

    /// Merges `other` into this node: every child of `other` whose
    /// identifier is not yet taken here is added, and every child whose
    /// identifier is taken is merged into the child found there. Where both
    /// trees hold a node, this tree's node wins.
    pub fn merge(&mut self, other: Ast)
        requires
            old(self).wf(),
            other.wf(),
            old(self).mergeable(other),
        ensures
            final(self).wf(),
            final(self).identifier == old(self).identifier,
            final(self).id == old(self).id,
            final(self).parent == old(self).parent,
            final(self).shape() == old(self).shape(),
            forall|p: Seq<IdentifierView>| #[trigger] final(self).shape_at(p) == merged_shape(*old(self), other, p),
            forall|p: Seq<IdentifierView>| #[trigger] final(self).parent_at(p) == merged_parent(*old(self), other, p),
        decreases other, 0nat,
    {
        let ghost a0 = *self;
        let ghost b = other;
        match other.value {
            NodeValue::Composite { children, value: bval } => {
                let ghost ch = children;
                let mut kids = children;
                let ghost all = kids@;
                let ghost n = all.len();
                assert(all.subrange(n as int, n as int) =~= Seq::<(Identifier, Ast)>::empty());
                assert forall|p: Seq<IdentifierView>| #[trigger] self.shape_at(p) == partly_merged_shape(a0, all, n as int, p) by {
                    if a0.shape_at(p) is None && p.len() > 0 {
                        assert(find_key(all.subrange(n as int, n as int), p[0]) is None);
                    }
                }
                assert forall|p: Seq<IdentifierView>| #[trigger] self.parent_at(p) == partly_merged_parent(a0, all, n as int, p) by {
                    if a0.lookup(p) is None && p.len() > 0 {
                        assert(find_key(all.subrange(n as int, n as int), p[0]) is None);
                    }
                }
                while kids.len() > 0
                    invariant
                        b == other,
                        b.value == (NodeValue::Composite { children: ch, value: bval }),
                        ch@ == all,
                        b.wf(),
                        a0.mergeable(b),
                        n == all.len(),
                        kids@.len() <= n,
                        kids@ == all.subrange(0, kids@.len() as int),
                        self.wf(),
                        self.identifier == a0.identifier,
                        self.id == a0.id,
                        self.parent == a0.parent,
                        self.shape() == a0.shape(),
                        forall|j: int| 0 <= j < kids@.len() ==> self.child(#[trigger] all[j].1.identifier@) == a0.child(all[j].1.identifier@),
                        forall|p: Seq<IdentifierView>| #[trigger] self.shape_at(p) == partly_merged_shape(a0, all, kids@.len() as int, p),
                        forall|p: Seq<IdentifierView>| #[trigger] self.parent_at(p) == partly_merged_parent(a0, all, kids@.len() as int, p),
                    decreases kids@.len(),
                {
                    let ghost m = kids@.len() as int;
                    let (k, c) = kids.pop().unwrap();
                    assert(c == all[m - 1].1);
                    assert(decreases_to!(b => b.value));
                    assert(decreases_to!(b.value => ch));
                    assert(decreases_to!(ch => ch@));
                    assert(decreases_to!(ch@ => ch@[m - 1]));
                    assert(decreases_to!(ch@[m - 1] => ch@[m - 1].1));
                    assert(decreases_to!(b => c));
                    let ghost cur = *self;
                    let ghost cid = c.identifier@;
                    assert(all[m - 1].0@ == cid);
                    self.merge_child(c);
                    assert forall|j: int| 0 <= j < m - 1 implies self.child(#[trigger] all[j].1.identifier@) == a0.child(all[j].1.identifier@) by {
                        assert(all[j].0@ == all[j].1.identifier@);
                        assert(all[j].0@ != all[m - 1].0@);
                    }
                    assert forall|p: Seq<IdentifierView>| #[trigger] self.shape_at(p) == partly_merged_shape(a0, all, m - 1, p) by {
                        assert(cur.shape_at(p) == partly_merged_shape(a0, all, m, p));
                        assert(all.subrange(m - 1, n as int) =~= seq![all[m - 1]] + all.subrange(m, n as int));
                        if p.len() > 0 {
                            lemma_find_key_cons(all[m - 1], all.subrange(m, n as int), p[0]);
                            if p[0] == cid {
                                lemma_find_key(all.subrange(m, n as int), cid);
                                if let Some(x) = find_key(all.subrange(m, n as int), cid) {
                                    assert(all.subrange(m, n as int)[x] == all[m + x]);
                                    assert(all[m + x].0@ == all[m + x].1.identifier@);
                                }
                            }
                        }
                    }
                    assert forall|p: Seq<IdentifierView>| #[trigger] self.parent_at(p) == partly_merged_parent(a0, all, m - 1, p) by {
                        assert(cur.parent_at(p) == partly_merged_parent(a0, all, m, p));
                        assert(cur.shape_at(p) == partly_merged_shape(a0, all, m, p));
                        assert(all.subrange(m - 1, n as int) =~= seq![all[m - 1]] + all.subrange(m, n as int));
                        if p.len() > 0 {
                            lemma_find_key_cons(all[m - 1], all.subrange(m, n as int), p[0]);
                            if p[0] == cid {
                                lemma_find_key(all.subrange(m, n as int), cid);
                                if let Some(x) = find_key(all.subrange(m, n as int), cid) {
                                    assert(all.subrange(m, n as int)[x] == all[m + x]);
                                    assert(all[m + x].0@ == all[m + x].1.identifier@);
                                }
                                assert(cur.child(cid) == a0.child(cid));
                                if a0.lookup(p) is None {
                                    assert(cur.lookup(p) is None);
                                }
                            } else {
                                lemma_find_key(all.subrange(m, n as int), p[0]);
                                if let Some(x) = find_key(all.subrange(m, n as int), p[0]) {
                                    assert(all.subrange(m - 1, n as int)[x + 1] == all[m + x]);
                                }
                            }
                        }
                    }
                }
                assert(all.subrange(0, n as int) =~= all);
                assert forall|p: Seq<IdentifierView>| #[trigger] self.shape_at(p) == merged_shape(a0, b, p) by {
                    if p.len() > 0 {
                        b.lemma_shape_at_cons(p);
                    }
                }
                assert forall|p: Seq<IdentifierView>| #[trigger] self.parent_at(p) == merged_parent(a0, b, p) by {
                    if p.len() > 0 {
                        b.lemma_parent_at_cons(p);
                        a0.lemma_parent_at_cons(p);
                        lemma_find_key(all, p[0]);
                    }
                }
            },
            NodeValue::Literal(_) => {
                assert forall|p: Seq<IdentifierView>| #[trigger] self.parent_at(p) == merged_parent(a0, b, p) by {
                    if p.len() > 0 {
                        b.lemma_parent_at_cons(p);
                    }
                }
                assert forall|p: Seq<IdentifierView>| #[trigger] self.shape_at(p) == merged_shape(a0, b, p) by {
                    if p.len() > 0 {
                        b.lemma_shape_at_cons(p);
                    }
                }
            },
        }
    }

    /// Merges `c` into the child under the identifier of `c`, or adds it
    /// where there is no such child.
    fn merge_child(&mut self, c: Ast)
        requires
            old(self).wf(),
            c.wf(),
            match old(self).child(c.identifier@) {
                Some(x) => x.mergeable(c),
                None => old(self).can_adopt(c),
            },
        ensures
            final(self).wf(),
            final(self).identifier == old(self).identifier,
            final(self).id == old(self).id,
            final(self).parent == old(self).parent,
            final(self).shape() == old(self).shape(),
            forall|k: IdentifierView| k != c.identifier@ ==> #[trigger] final(self).child(k) == old(self).child(k),
            forall|p: Seq<IdentifierView>| #[trigger] final(self).shape_at(p) == (if old(self).shape_at(p) is Some {
                old(self).shape_at(p)
            } else if p.len() > 0 && p[0] == c.identifier@ {
                c.shape_at(p.drop_first())
            } else {
                None
            }),
            forall|p: Seq<IdentifierView>| #[trigger] final(self).parent_at(p) == child_merged_parent(*old(self), c, p),
        decreases c, 1nat,
    {
        let ghost a0 = *self;
        let ghost cid = c.identifier@;
        let key = c.identifier.clone();
        let mut v = NodeValue::Literal(LiteralValue::Bool(false));
        std::mem::swap(&mut self.value, &mut v);
        match v {
            NodeValue::Composite { mut children, value } => {
                let ghost old_kids = children@;
                proof { lemma_find_key(old_kids, cid); }
                match find_index(&children, &key) {
                    Some(i) => {
                        let (k, mut x) = children.remove(i);
                        assert(x == old_kids[i as int].1);
                        let ghost x0 = x;
                        x.merge(c);
                        children.insert(i, (k, x));
                        assert(children@ =~= old_kids.update(i as int, (k, x)));
                        self.value = NodeValue::Composite { children, value };
                        assert forall|kk: IdentifierView| #[trigger] find_key(self.kids(), kk) == find_key(old_kids, kk) by {
                            lemma_find_key_update(old_kids, i as int, (k, x), kk);
                        }
                        assert forall|kk: IdentifierView| kk != cid implies #[trigger] self.child(kk) == a0.child(kk) by {
                            lemma_find_key(old_kids, kk);
                        }
                        assert(unique_keys(self.kids()));
                        assert forall|j: int| 0 <= j < self.kids().len() implies (#[trigger] self.kids()[j]).0@ == self.kids()[j].1.identifier@ && self.kids()[j].1.wf() by {
                            if j != i {
                                assert(self.kids()[j] == old_kids[j]);
                            }
                        }
                        assert(self.wf());
                        assert forall|p: Seq<IdentifierView>| #[trigger] self.shape_at(p) == (if a0.shape_at(p) is Some {
                            a0.shape_at(p)
                        } else if p.len() > 0 && p[0] == cid {
                            c.shape_at(p.drop_first())
                        } else {
                            None
                        }) by {
                            if p.len() > 0 {
                                self.lemma_shape_at_cons(p);
                                a0.lemma_shape_at_cons(p);
                                if p[0] != cid {
                                    lemma_find_key(old_kids, p[0]);
                                }
                            }
                        }
                        assert forall|p: Seq<IdentifierView>| #[trigger] self.parent_at(p) == child_merged_parent(a0, c, p) by {
                            if p.len() > 0 {
                                self.lemma_parent_at_cons(p);
                                a0.lemma_parent_at_cons(p);
                                if p[0] != cid {
                                    lemma_find_key(old_kids, p[0]);
                                } else {
                                    assert(self.child(cid) == Some(x));
                                    assert(a0.child(cid) == Some(x0));
                                }
                            }
                        }
                    },
                    None => {
                        let mut c = c;
                        let ghost c0 = c;
                        c.attach_to_parent(self.id);
                        children.push((key, c));
                        self.value = NodeValue::Composite { children, value };
                        assert(self.kids() == old_kids.push((key, c)));
                        assert forall|kk: IdentifierView| #[trigger] find_key(self.kids(), kk) == (if kk == cid { Some(old_kids.len() as int) } else { find_key(old_kids, kk) }) by {
                            lemma_find_key_push(old_kids, (key, c), kk);
                        }
                        assert forall|kk: IdentifierView| kk != cid implies #[trigger] self.child(kk) == a0.child(kk) by {
                            lemma_find_key(old_kids, kk);
                        }
                        assert(c.wf()) by {
                            assert(c.value == c0.value);
                        }
                        assert forall|j: int| 0 <= j < self.kids().len() implies (#[trigger] self.kids()[j]).0@ == self.kids()[j].1.identifier@ && self.kids()[j].1.wf() by {
                            if j < old_kids.len() {
                                assert(self.kids()[j] == old_kids[j]);
                            }
                        }
                        assert forall|ii: int, jj: int| 0 <= ii < self.kids().len() && 0 <= jj < self.kids().len() && ii != jj implies self.kids()[ii].0@ != self.kids()[jj].0@ by {
                            if ii < old_kids.len() && jj < old_kids.len() {
                            } else if ii == old_kids.len() {
                                assert(old_kids[jj].0@ != cid);
                            } else {
                                assert(old_kids[ii].0@ != cid);
                            }
                        }
                        assert forall|p: Seq<IdentifierView>| #[trigger] self.shape_at(p) == (if a0.shape_at(p) is Some {
                            a0.shape_at(p)
                        } else if p.len() > 0 && p[0] == cid {
                            c0.shape_at(p.drop_first())
                        } else {
                            None
                        }) by {
                            if p.len() > 0 {
                                self.lemma_shape_at_cons(p);
                                a0.lemma_shape_at_cons(p);
                                if p[0] == cid {
                                    c.lemma_same_value_same_shapes(c0, p.drop_first());
                                } else {
                                    lemma_find_key(old_kids, p[0]);
                                }
                            }
                        }
                        assert forall|p: Seq<IdentifierView>| #[trigger] self.parent_at(p) == child_merged_parent(a0, c0, p) by {
                            if p.len() > 0 {
                                self.lemma_parent_at_cons(p);
                                a0.lemma_parent_at_cons(p);
                                if p[0] == cid {
                                    assert(self.child(cid) == Some(c));
                                    if p.len() > 1 {
                                        c.lemma_same_value_same_parents(c0, p.drop_first());
                                    }
                                } else {
                                    lemma_find_key(old_kids, p[0]);
                                }
                            }
                        }
                    },
                }
            },
            NodeValue::Literal(l) => {
                self.value = NodeValue::Literal(l);
            },
        }
    }
}

/// The view of a list of identifiers.
pub open spec fn ids_view(v: Seq<Identifier>) -> Seq<IdentifierView> {
    v.map_values(|i: Identifier| i@)
}

/// In well-formed children, each key is found at its own entry.
pub proof fn lemma_find_own_key(kids: Seq<(Identifier, Ast)>, i: int)
    requires
        unique_keys(kids),
        0 <= i < kids.len(),
    ensures
        find_key(kids, kids[i].0@) == Some(i),
{
    lemma_find_key(kids, kids[i].0@);
}

impl Ast {
    /// Appends each node of the tree, in pre-order, with its path of
    /// identifiers from this node, extended by `prefix`.
    fn collect<'a>(&'a self, prefix: &Vec<Identifier>, out: &mut Vec<(Path, &'a Ast)>)
        ensures
            final(out)@.len() == old(out)@.len() + tree_nodes(*self).len(),
            final(out)@.subrange(0, old(out)@.len() as int) == old(out)@,
            forall|j: int| 0 <= j < tree_nodes(*self).len() ==> (#[trigger] final(out)@[old(out)@.len() + j]).0@ == ids_view(prefix@) + tree_paths(*self)[j]
                && *final(out)@[old(out)@.len() + j].1 == tree_nodes(*self)[j],
        decreases self,
    {
        let ghost start = out@.len() as int;
        let ghost pre = ids_view(prefix@);
        out.push((Path(crate::identifier::clone_identifiers(prefix)), self));
        proof {
            lemma_paths_len(*self, 0);
            assert(out@[start + 0].0@ == pre + paths_upto(*self, 0)[0]);
        }
        match &self.value {
            NodeValue::Composite { children, .. } => {
                let mut i: usize = 0;
                while i < children.len()
                    invariant
                        self.value == (NodeValue::Composite { children: *children, value: self.value->value }),
                        i <= children@.len(),
                        pre == ids_view(prefix@),
                        0 <= start,
                        out@.len() == start + nodes_upto(*self, i as int).len(),
                        out@.subrange(0, start) == old(out)@,
                        paths_upto(*self, i as int).len() == nodes_upto(*self, i as int).len(),
                        forall|j: int| 0 <= j < nodes_upto(*self, i as int).len() ==> (#[trigger] out@[start + j]).0@ == pre + paths_upto(*self, i as int)[j]
                            && *out@[start + j].1 == nodes_upto(*self, i as int)[j],
                    decreases children@.len() - i,
                {
                    let mut p = crate::identifier::clone_identifiers(prefix);
                    p.push(children[i].1.identifier.clone());
                    let ghost before = out@;
                    let ghost c = children@[i as int].1;
                    assert(ids_view(p@) =~= pre.push(c.identifier@));
                    assert(decreases_to!(self => self.value));
                    children[i].1.collect(&p, out);
                    proof {
                        lemma_paths_len(c, c.kids().len() as int);
                        let nu = nodes_upto(*self, i as int);
                        let pu = paths_upto(*self, i as int);
                        let tp = tree_paths(c);
                        assert(nodes_upto(*self, i + 1) == nu + tree_nodes(c));
                        assert(paths_upto(*self, i + 1) == pu + tp.map_values(|q: Seq<IdentifierView>| seq![c.identifier@] + q));
                        assert(out@.subrange(0, start) =~= old(out)@) by {
                            assert forall|t: int| 0 <= t < start implies out@.subrange(0, start)[t] == old(out)@[t] by {
                                assert(out@.subrange(0, before.len() as int)[t] == before[t]);
                            }
                        }
                        assert forall|j: int| 0 <= j < nodes_upto(*self, i + 1).len() implies (#[trigger] out@[start + j]).0@ == pre + paths_upto(*self, i + 1)[j]
                            && *out@[start + j].1 == nodes_upto(*self, i + 1)[j] by {
                            if j < nu.len() {
                                assert(out@.subrange(0, before.len() as int)[start + j] == before[start + j]);
                            } else {
                                let jj = j - nu.len();
                                assert(out@[before.len() + jj] == out@[start + j]);
                                assert(pre.push(c.identifier@) + tp[jj] =~= pre + (seq![c.identifier@] + tp[jj]));
                            }
                        }
                    }
                    i = i + 1;
                }
            },
            NodeValue::Literal(_) => {},
        }
    }
}

/// The paths of identifiers, from `node`, of the nodes of `nodes_upto(node,
/// k)`, in the same order.
pub open spec fn paths_upto(node: Ast, k: int) -> Seq<Seq<IdentifierView>>
    decreases node, k,
{
    match node.value {
        NodeValue::Composite { children, .. } => if 0 < k <= children@.len() {
            paths_upto(node, k - 1) + paths_upto(children@[k - 1].1, children@[k - 1].1.kids().len() as int).map_values(
                |q: Seq<IdentifierView>| seq![children@[k - 1].1.identifier@] + q)
        } else {
            seq![Seq::empty()]
        },
        NodeValue::Literal(_) => seq![Seq::empty()],
    }
}

/// The paths of identifiers, from `node`, of the nodes of `tree_nodes(node)`,
/// in the same order.
pub open spec fn tree_paths(node: Ast) -> Seq<Seq<IdentifierView>> {
    paths_upto(node, node.kids().len() as int)
}

/// The paths and the nodes come in equal numbers, the node itself first at
/// the empty path.
pub proof fn lemma_paths_len(node: Ast, k: int)
    ensures
        paths_upto(node, k).len() == nodes_upto(node, k).len(),
        nodes_upto(node, k).len() >= 1,
        paths_upto(node, k)[0] == Seq::<IdentifierView>::empty(),
        nodes_upto(node, k)[0] == node,
    decreases node, k,
{
    match node.value {
        NodeValue::Composite { children, .. } => if 0 < k <= children@.len() {
            lemma_paths_len(node, k - 1);
            let c = children@[k - 1].1;
            assert(decreases_to!(node => node.value));
            lemma_paths_len(c, c.kids().len() as int);
        },
        NodeValue::Literal(_) => {},
    }
}

/// In a well-formed tree, each path leads to the node it comes with.
pub proof fn lemma_paths_sound(node: Ast, k: int)
    requires
        node.wf(),
    ensures
        forall|j: int| 0 <= j < nodes_upto(node, k).len() ==> node.lookup(#[trigger] paths_upto(node, k)[j]) == Some(nodes_upto(node, k)[j]),
    decreases node, k,
{
    lemma_paths_len(node, k);
    match node.value {
        NodeValue::Composite { children, .. } => if 0 < k <= children@.len() {
            lemma_paths_sound(node, k - 1);
            let c = children@[k - 1].1;
            assert(decreases_to!(node => node.value));
            assert(c.wf());
            lemma_paths_sound(c, c.kids().len() as int);
            lemma_paths_len(c, c.kids().len() as int);
            lemma_paths_len(node, k - 1);
            lemma_find_own_key(children@, k - 1);
            assert(node.child(c.identifier@) == Some(c));
            let nu = nodes_upto(node, k - 1);
            let tp = tree_paths(c);
            assert forall|j: int| 0 <= j < nodes_upto(node, k).len() implies node.lookup(#[trigger] paths_upto(node, k)[j]) == Some(nodes_upto(node, k)[j]) by {
                if j >= nu.len() {
                    let jj = j - nu.len();
                    let q = paths_upto(node, k)[j];
                    assert(q == seq![c.identifier@] + tp[jj]);
                    assert(q.drop_first() =~= tp[jj]);
                    assert(c.lookup(tp[jj]) == Some(tree_nodes(c)[jj]));
                }
            }
        } else {
            assert(node.lookup(Seq::<IdentifierView>::empty()) == Some(node));
        },
        NodeValue::Literal(_) => {
            assert(node.lookup(Seq::<IdentifierView>::empty()) == Some(node));
        },
    }
}

/// In a well-formed tree, every node below the first `k` children (and
/// the node itself) comes with its path.
pub proof fn lemma_paths_complete(node: Ast, k: int)
    requires
        node.wf(),
        0 <= k <= node.kids().len(),
    ensures
        forall|q: Seq<IdentifierView>| #[trigger] node.lookup(q) is Some
            && (q.len() == 0 || (find_key(node.kids(), q[0]) matches Some(i) && i < k))
            ==> exists|j: int| 0 <= j < paths_upto(node, k).len() && paths_upto(node, k)[j] == q,
    decreases node, k,
{
    lemma_paths_len(node, k);
    match node.value {
        NodeValue::Composite { children, .. } => if 0 < k {
            lemma_paths_complete(node, k - 1);
            let c = children@[k - 1].1;
            assert(decreases_to!(node => node.value));
            assert(c.wf());
            lemma_paths_complete(c, c.kids().len() as int);
            lemma_paths_len(node, k - 1);
            let pu = paths_upto(node, k - 1);
            let tp = tree_paths(c);
            assert forall|q: Seq<IdentifierView>| #[trigger] node.lookup(q) is Some
                && (q.len() == 0 || (find_key(node.kids(), q[0]) matches Some(i) && i < k))
                implies exists|j: int| 0 <= j < paths_upto(node, k).len() && paths_upto(node, k)[j] == q by {
                if q.len() == 0 {
                    assert(paths_upto(node, k)[0] == q);
                } else {
                    let i = find_key(node.kids(), q[0]).unwrap();
                    if i < k - 1 {
                        let j = choose|j: int| 0 <= j < pu.len() && pu[j] == q;
                        assert(paths_upto(node, k)[j] == q);
                    } else {
                        lemma_find_key(children@, q[0]);
                        assert(children@[k - 1].0@ == c.identifier@);
                        let r = q.drop_first();
                        assert(node.child(q[0]) == Some(c));
                        assert(c.lookup(r) is Some);
                        if r.len() > 0 {
                            lemma_find_key(c.kids(), r[0]);
                        }
                        let jj = choose|jj: int| 0 <= jj < tp.len() && tp[jj] == r;
                        assert(paths_upto(node, k)[pu.len() + jj] == seq![c.identifier@] + r);
                        assert(seq![c.identifier@] + r =~= q);
                    }
                }
            }
        } else {
            assert forall|q: Seq<IdentifierView>| #[trigger] node.lookup(q) is Some
                && (q.len() == 0 || (find_key(node.kids(), q[0]) matches Some(i) && i < k))
                implies exists|j: int| 0 <= j < paths_upto(node, k).len() && paths_upto(node, k)[j] == q by {
                if q.len() > 0 {
                    lemma_find_key(node.kids(), q[0]);
                } else {
                    assert(paths_upto(node, k)[0] == q);
                }
            }
        },
        NodeValue::Literal(_) => {
            assert forall|q: Seq<IdentifierView>| #[trigger] node.lookup(q) is Some
                && (q.len() == 0 || (find_key(node.kids(), q[0]) matches Some(i) && i < k))
                implies exists|j: int| 0 <= j < paths_upto(node, k).len() && paths_upto(node, k)[j] == q by {
                if q.len() > 0 {
                    assert(node.kids() =~= Seq::<(Identifier, Ast)>::empty());
                    assert(find_key(node.kids(), q[0]) is None);
                    assert(node.child(q[0]) is None);
                    assert(node.lookup(q) is None);
                } else {
                    assert(paths_upto(node, k)[0] == q);
                }
            }
        },
    }
}

impl Ast {
    /// `path` is the path of a node of this tree, from the root and
    /// starting with the root's own identifier.
    pub open spec fn is_absolute_path(self, path: Seq<IdentifierView>) -> bool {
        path.len() >= 1 && path[0] == self.identifier@ && self.lookup(path.drop_first()) is Some
    }

    /// The node at the absolute path `path`.
    pub open spec fn at_absolute_path(self, path: Seq<IdentifierView>) -> Ast {
        self.lookup(path.drop_first()).unwrap()
    }

    /// All the nodes of the tree, each once, in pre-order: the node itself
    /// first.
    pub fn traverse(&self) -> (r: Vec<&Ast>)
        ensures
            derefs(r@) == tree_nodes(*self),
            r@.len() == tree_nodes(*self).len(),
            *r@[0] == *self,
    {
        let mut r: Vec<&Ast> = Vec::new();
        self.collect_nodes(&mut r);
        assert(derefs(r@) =~= tree_nodes(*self));
        proof {
            lemma_paths_len(*self, self.kids().len() as int);
            assert(derefs(r@)[0] == *r@[0]);
        }
        r
    }

    /// Appends the nodes of the tree, in pre-order.
    fn collect_nodes<'a>(&'a self, out: &mut Vec<&'a Ast>)
        ensures
            derefs(final(out)@) == derefs(old(out)@) + tree_nodes(*self),
        decreases self,
    {
        let ghost start = derefs(old(out)@);
        out.push(self);
        assert(derefs(out@) =~= start + nodes_upto(*self, 0));
        match &self.value {
            NodeValue::Composite { children, .. } => {
                let mut i: usize = 0;
                while i < children.len()
                    invariant
                        self.value == (NodeValue::Composite { children: *children, value: self.value->value }),
                        i <= children@.len(),
                        derefs(out@) == start + nodes_upto(*self, i as int),
                    decreases children@.len() - i,
                {
                    assert(decreases_to!(self => self.value));
                    assert(decreases_to!(self.value => self.value->children));
                    assert(decreases_to!(*children => children@));
                    assert(decreases_to!(children@ => children@[i as int]));
                    assert(decreases_to!(children@[i as int] => children@[i as int].1));
                    children[i].1.collect_nodes(out);
                    assert(derefs(out@) =~= start + nodes_upto(*self, i + 1));
                    i = i + 1;
                }
            },
            NodeValue::Literal(_) => {},
        }
    }

    /// Every node of the tree, in pre-order, with its absolute path (the
    /// root's identifier first, then the identifiers down to the node).
    pub fn path_to_node_map(&self) -> (r: Vec<(Path, &Ast)>)
        ensures
            r@.len() == tree_nodes(*self).len(),
            forall|j: int| 0 <= j < r@.len() ==> (#[trigger] r@[j]).0@ == seq![self.identifier@] + tree_paths(*self)[j]
                && *r@[j].1 == tree_nodes(*self)[j],
            r@.len() >= 1,
            r@[0].0@ == seq![self.identifier@],
            *r@[0].1 == *self,
            self.wf() ==> forall|j: int| 0 <= j < r@.len() ==> self.is_absolute_path((#[trigger] r@[j]).0@) && self.at_absolute_path(r@[j].0@) == *r@[j].1,
            self.wf() ==> forall|p: Seq<IdentifierView>| #[trigger] self.is_absolute_path(p) ==> exists|j: int| 0 <= j < r@.len() && (#[trigger] r@[j]).0@ == p,
    {
        let prefix = vec![self.identifier.clone()];
        let ghost pre = ids_view(prefix@);
        assert(pre =~= seq![self.identifier@]);
        let mut out: Vec<(Path, &Ast)> = Vec::new();
        self.collect(&prefix, &mut out);
        proof {
            lemma_paths_len(*self, self.kids().len() as int);
            let tp = tree_paths(*self);
            assert forall|j: int| 0 <= j < out@.len() implies (#[trigger] out@[j]).0@ == seq![self.identifier@] + tp[j]
                && *out@[j].1 == tree_nodes(*self)[j] by {
                assert(out@[0 + j] == out@[j]);
            }
            assert(out@[0].0@ =~= seq![self.identifier@]);
            if self.wf() {
                lemma_paths_sound(*self, self.kids().len() as int);
                lemma_paths_complete(*self, self.kids().len() as int);
                assert forall|j: int| 0 <= j < out@.len() implies self.is_absolute_path((#[trigger] out@[j]).0@) && self.at_absolute_path(out@[j].0@) == *out@[j].1 by {
                    let e = out@[j].0@;
                    assert(e.drop_first() =~= tp[j]);
                    assert(self.lookup(tp[j]) == Some(tree_nodes(*self)[j]));
                }
                assert forall|p: Seq<IdentifierView>| #[trigger] self.is_absolute_path(p) implies exists|j: int| 0 <= j < out@.len() && (#[trigger] out@[j]).0@ == p by {
                    let q = p.drop_first();
                    assert(self.lookup(q) is Some);
                    if q.len() > 0 {
                        lemma_find_key(self.kids(), q[0]);
                    }
                    let j = choose|j: int| 0 <= j < tp.len() && tp[j] == q;
                    assert(seq![self.identifier@] + q =~= p);
                    assert(out@[j].0@ == p);
                }
            }
        }
        out
    }

    /// Every node's id with the node, for every node of the tree.
    pub fn id_to_node_map(&self) -> (r: Vec<(NodeId, &Ast)>)
        ensures
            r@.len() >= 1,
            forall|j: int| 0 <= j < r@.len() ==> (#[trigger] r@[j]).0 == r@[j].1.id,
            r@.len() == tree_nodes(*self).len(),
            forall|j: int| 0 <= j < r@.len() ==> *(#[trigger] r@[j]).1 == tree_nodes(*self)[j],
            self.wf() ==> forall|j: int| 0 <= j < r@.len() ==> exists|p: Seq<IdentifierView>| #[trigger] self.is_absolute_path(p) && self.at_absolute_path(p) == *(#[trigger] r@[j]).1,
            self.wf() ==> forall|p: Seq<IdentifierView>| #[trigger] self.is_absolute_path(p) ==> exists|j: int| 0 <= j < r@.len() && *(#[trigger] r@[j]).1 == self.at_absolute_path(p),
    {
        let entries = self.path_to_node_map();
        let mut r: Vec<(NodeId, &Ast)> = Vec::new();
        let mut i: usize = 0;
        while i < entries.len()
            invariant
                i <= entries@.len(),
                r@.len() == i,
                forall|k: int| 0 <= k < i ==> (#[trigger] r@[k]).0 == entries@[k].1.id && r@[k].1 == entries@[k].1,
            decreases entries@.len() - i,
        {
            r.push((entries[i].1.id, entries[i].1));
            i = i + 1;
        }

        proof {
            if self.wf() {
                assert forall|j: int| 0 <= j < r@.len() implies exists|p: Seq<IdentifierView>| #[trigger] self.is_absolute_path(p) && self.at_absolute_path(p) == *(#[trigger] r@[j]).1 by {
                    assert(self.is_absolute_path(entries@[j].0@));
                }
                assert forall|p: Seq<IdentifierView>| #[trigger] self.is_absolute_path(p) implies exists|j: int| 0 <= j < r@.len() && *(#[trigger] r@[j]).1 == self.at_absolute_path(p) by {
                    let j = choose|j: int| 0 <= j < entries@.len() && (#[trigger] entries@[j]).0@ == p;
                    assert(self.at_absolute_path(entries@[j].0@) == *entries@[j].1);
                    assert(*r@[j].1 == *entries@[j].1);
                }
            }
        }
        r
    }

    /// Every node's id with the node's absolute path, for every node of the
    /// tree.
    pub fn id_to_path_map(&self) -> (r: Vec<(NodeId, Path)>)
        ensures
            r@.len() == tree_nodes(*self).len(),
            forall|j: int| 0 <= j < r@.len() ==> (#[trigger] r@[j]).0 == tree_nodes(*self)[j].id
                && r@[j].1@ == seq![self.identifier@] + tree_paths(*self)[j],
            self.wf() ==> forall|j: int| 0 <= j < r@.len() ==> self.is_absolute_path((#[trigger] r@[j]).1@) && self.at_absolute_path(r@[j].1@).id == r@[j].0,
            self.wf() ==> forall|p: Seq<IdentifierView>| #[trigger] self.is_absolute_path(p) ==> exists|j: int| 0 <= j < r@.len() && (#[trigger] r@[j]).1@ == p,
    {
        let entries = self.path_to_node_map();
        let mut r: Vec<(NodeId, Path)> = Vec::new();
        let mut i: usize = 0;
        while i < entries.len()
            invariant
                i <= entries@.len(),
                r@.len() == i,
                forall|k: int| 0 <= k < i ==> (#[trigger] r@[k]).0 == entries@[k].1.id && r@[k].1@ == entries@[k].0@,
            decreases entries@.len() - i,
        {
            r.push((entries[i].1.id, entries[i].0.clone()));
            i = i + 1;
        }
        assert forall|j: int| 0 <= j < r@.len() implies (#[trigger] r@[j]).0 == tree_nodes(*self)[j].id
            && r@[j].1@ == seq![self.identifier@] + tree_paths(*self)[j] by {
            assert(entries@[j].0@ == seq![self.identifier@] + tree_paths(*self)[j]);
        }
        proof {
            if self.wf() {
                assert forall|j: int| 0 <= j < r@.len() implies self.is_absolute_path((#[trigger] r@[j]).1@) && self.at_absolute_path(r@[j].1@).id == r@[j].0 by {
                    assert(self.is_absolute_path(entries@[j].0@));
                }
                assert forall|p: Seq<IdentifierView>| #[trigger] self.is_absolute_path(p) implies exists|j: int| 0 <= j < r@.len() && (#[trigger] r@[j]).1@ == p by {
                    let j = choose|j: int| 0 <= j < entries@.len() && (#[trigger] entries@[j]).0@ == p;
                    assert(r@[j].1@ == entries@[j].0@);
                }
            }
        }
        r
    }

    /// Every node's absolute path with the node's id, for every node of the
    /// tree.
    pub fn path_to_node_id_map(&self) -> (r: Vec<(Path, NodeId)>)
        ensures
            r@.len() == tree_nodes(*self).len(),
            forall|j: int| 0 <= j < r@.len() ==> (#[trigger] r@[j]).1 == tree_nodes(*self)[j].id
                && r@[j].0@ == seq![self.identifier@] + tree_paths(*self)[j],
            self.wf() ==> forall|j: int| 0 <= j < r@.len() ==> self.is_absolute_path((#[trigger] r@[j]).0@) && self.at_absolute_path(r@[j].0@).id == r@[j].1,
            self.wf() ==> forall|p: Seq<IdentifierView>| #[trigger] self.is_absolute_path(p) ==> exists|j: int| 0 <= j < r@.len() && (#[trigger] r@[j]).0@ == p,
    {
        let entries = self.path_to_node_map();
        let mut r: Vec<(Path, NodeId)> = Vec::new();
        let mut i: usize = 0;
        while i < entries.len()
            invariant
                i <= entries@.len(),
                r@.len() == i,
                forall|k: int| 0 <= k < i ==> (#[trigger] r@[k]).1 == entries@[k].1.id && r@[k].0@ == entries@[k].0@,
            decreases entries@.len() - i,
        {
            r.push((entries[i].0.clone(), entries[i].1.id));
            i = i + 1;
        }
        assert forall|j: int| 0 <= j < r@.len() implies (#[trigger] r@[j]).1 == tree_nodes(*self)[j].id
            && r@[j].0@ == seq![self.identifier@] + tree_paths(*self)[j] by {
            assert(entries@[j].0@ == seq![self.identifier@] + tree_paths(*self)[j]);
        }
        proof {
            if self.wf() {
                assert forall|j: int| 0 <= j < r@.len() implies self.is_absolute_path((#[trigger] r@[j]).0@) && self.at_absolute_path(r@[j].0@).id == r@[j].1 by {
                    assert(self.is_absolute_path(entries@[j].0@));
                }
                assert forall|p: Seq<IdentifierView>| #[trigger] self.is_absolute_path(p) implies exists|j: int| 0 <= j < r@.len() && (#[trigger] r@[j]).0@ == p by {
                    let j = choose|j: int| 0 <= j < entries@.len() && (#[trigger] entries@[j]).0@ == p;
                    assert(r@[j].0@ == entries@[j].0@);
                }
            }
        }
        r
    }
}

impl Ast {
    /// A node with a fresh random id and no parent, whose children (if any)
    /// are linked to it. The tree holds the fresh id and the ids of the
    /// given children's trees, so its ids are distinct exactly where those
    /// are and the fresh id is none of them; the fresh id is random, so
    /// that it differs from the ids below is left to `has_unique_ids`.
    pub fn new(identifier: Identifier, value: NodeValue) -> (r: Self)
        ensures
            r.identifier == identifier,
            r.parent is None,
            r.shape() == (Ast { identifier, value, id: r.id, parent: None }).shape(),
            r.kids().len() == (Ast { identifier, value, id: r.id, parent: None }).kids().len(),
            forall|i: int| 0 <= i < r.kids().len() ==> #[trigger] r.kids()[i] == ((Ast { identifier, value, id: r.id, parent: None }).kids()[i].0,
                adopted((Ast { identifier, value, id: r.id, parent: None }).kids()[i].1, r.id)),
            r.wf() == (Ast { identifier, value, id: r.id, parent: None }).wf(),
            tree_ids(r) == tree_ids(Ast { identifier, value, id: r.id, parent: None }),
    {
        let id = NodeId::new();
        let ghost orig = Ast { identifier, value, id, parent: None };
        match value {
            NodeValue::Composite { children, value: kind } => {
                let mut rest = children;
                let ghost all = rest@;
                let mut linked: Vec<(Identifier, Ast)> = Vec::new();
                while rest.len() > 0
                    invariant
                        linked@.len() + rest@.len() == all.len(),
                        rest@ == all.subrange(linked@.len() as int, all.len() as int),
                        forall|i: int| 0 <= i < linked@.len() ==> #[trigger] linked@[i] == (all[i].0, adopted(all[i].1, id)),
                    decreases rest@.len(),
                {
                    let ghost k = linked@.len() as int;
                    let (key, mut child) = rest.remove(0);
                    assert((key, child) == all[k]);
                    child.attach_to_parent(id);
                    linked.push((key, child));
                    assert(rest@ =~= all.subrange(k + 1, all.len() as int));
                }
                let r = Ast { identifier, value: NodeValue::Composite { children: linked, value: kind }, id, parent: None };
                proof {
                    assert(r.kids().len() == orig.kids().len());
                    assert forall|i: int| 0 <= i < r.kids().len() implies #[trigger] r.kids()[i].0@ == r.kids()[i].1.identifier@ <==> orig.kids()[i].0@ == orig.kids()[i].1.identifier@ by {}
                    assert forall|i: int| 0 <= i < r.kids().len() implies #[trigger] r.kids()[i].1.wf() == orig.kids()[i].1.wf() by {
                        lemma_wf_by_value(r.kids()[i].1, orig.kids()[i].1);
                    }
                    assert forall|i: int| 0 <= i < r.kids().len() implies #[trigger] r.kids()[i].0 == orig.kids()[i].0 by {}
                    if unique_keys(orig.kids()) {
                        assert forall|i: int, j: int| 0 <= i < r.kids().len() && 0 <= j < r.kids().len() && i != j implies r.kids()[i].0@ != r.kids()[j].0@ by {
                            assert(r.kids()[i].0 == orig.kids()[i].0);
                            assert(r.kids()[j].0 == orig.kids()[j].0);
                        }
                    }
                    if unique_keys(r.kids()) {
                        assert forall|i: int, j: int| 0 <= i < orig.kids().len() && 0 <= j < orig.kids().len() && i != j implies orig.kids()[i].0@ != orig.kids()[j].0@ by {
                            assert(r.kids()[i].0 == orig.kids()[i].0);
                            assert(r.kids()[j].0 == orig.kids()[j].0);
                        }
                    }
                    if orig.wf() {
                        assert forall|i: int| 0 <= i < r.kids().len() implies (#[trigger] r.kids()[i]).0@ == r.kids()[i].1.identifier@ && r.kids()[i].1.wf() by {
                            assert(orig.kids()[i].0@ == orig.kids()[i].1.identifier@);
                            assert(orig.kids()[i].1.wf());
                        }
                        assert(r.wf());
                    }
                    if r.wf() {
                        assert forall|i: int| 0 <= i < orig.kids().len() implies (#[trigger] orig.kids()[i]).0@ == orig.kids()[i].1.identifier@ && orig.kids()[i].1.wf() by {
                            assert(r.kids()[i].0@ == r.kids()[i].1.identifier@);
                            assert(r.kids()[i].1.wf());
                        }
                        assert(orig.wf());
                    }
                    lemma_ids_up_to_links(r, orig, r.kids().len() as int);
                }
                r
            },
            NodeValue::Literal(l) => Ast { identifier, value: NodeValue::Literal(l), id, parent: None },
        }
    }

    /// The children of a composite node; `None` for a literal.
    pub fn children(&self) -> (r: Option<Vec<&Ast>>)
        ensures
            r is Some <==> self.value is Composite,
            r matches Some(v) ==> v@.len() == self.kids().len()
                && forall|i: int| 0 <= i < v@.len() ==> *(#[trigger] v@[i]) == self.kids()[i].1,
    {
        match &self.value {
            NodeValue::Composite { children, .. } => {
                let mut v: Vec<&Ast> = Vec::new();
                let mut i: usize = 0;
                while i < children.len()
                    invariant
                        i <= children@.len(),
                        v@.len() == i,
                        forall|k: int| 0 <= k < i ==> *(#[trigger] v@[k]) == children@[k].1,
                    decreases children@.len() - i,
                {
                    v.push(&children[i].1);
                    i = i + 1;
                }
                Some(v)
            },
            NodeValue::Literal(_) => None,
        }
    }

    /// The children of a composite node, taken out of it; `None` for a
    /// literal.
    pub fn children_into(self) -> (r: Option<Vec<Ast>>)
        ensures
            r is Some <==> self.value is Composite,
            r matches Some(v) ==> v@.len() == self.kids().len()
                && forall|i: int| 0 <= i < v@.len() ==> #[trigger] v@[i] == self.kids()[i].1,
    {
        match self.value {
            NodeValue::Composite { children, .. } => {
                let mut rest = children;
                let ghost all = rest@;
                let mut v: Vec<Ast> = Vec::new();
                while rest.len() > 0
                    invariant
                        v@.len() + rest@.len() == all.len(),
                        rest@ == all.subrange(v@.len() as int, all.len() as int),
                        forall|k: int| 0 <= k < v@.len() ==> #[trigger] v@[k] == all[k].1,
                    decreases rest@.len(),
                {
                    let ghost k = v@.len() as int;
                    let (_, child) = rest.remove(0);
                    assert(child == all[k].1);
                    v.push(child);
                    assert(rest@ =~= all.subrange(k + 1, all.len() as int));
                }
                Some(v)
            },
            NodeValue::Literal(_) => None,
        }
    }
}

impl Ast {
    /// The child under `identifier`, for changing it in place.
    pub fn get_mut(&mut self, identifier: &Identifier) -> (r: Option<&mut Ast>)
        ensures
            match r {
                Some(n) => old(self).child(identifier@) == Some(*n)
                    && final(self).identifier == old(self).identifier
                    && final(self).id == old(self).id
                    && final(self).parent == old(self).parent
                    && final(self).shape() == old(self).shape()
                    && final(self).kids() == old(self).kids().update(
                        find_key(old(self).kids(), identifier@).unwrap(),
                        (old(self).kids()[find_key(old(self).kids(), identifier@).unwrap()].0, *final(n)),
                    ),
                None => old(self).child(identifier@) is None && *final(self) == *old(self),
            },
    {
        match &mut self.value {
            NodeValue::Composite { children, .. } => {
                proof { lemma_find_key(children@, identifier@); }
                match find_index(children, identifier) {
                    Some(i) => Some(&mut children[i].1),
                    None => None,
                }
            },
            NodeValue::Literal(_) => None,
        }
    }
}

/// The index of the first entry of `tree` with the id `id`.
pub open spec fn find_id(tree: Seq<(NodeId, &Ast)>, id: NodeId) -> Option<int>
    decreases tree.len(),
{
    if tree.len() == 0 {
        None
    } else if tree[0].0 == id {
        Some(0)
    } else {
        match find_id(tree.drop_first(), id) {
            Some(i) => Some(i + 1),
            None => None,
        }
    }
}

proof fn lemma_find_id(tree: Seq<(NodeId, &Ast)>, id: NodeId)
    ensures
        match find_id(tree, id) {
            Some(i) => 0 <= i < tree.len() && tree[i].0 == id && forall|j: int| 0 <= j < i ==> tree[j].0 != id,
            None => forall|j: int| 0 <= j < tree.len() ==> tree[j].0 != id,
        },
    decreases tree.len(),
{
    if tree.len() > 0 {
        lemma_find_id(tree.drop_first(), id);
        if tree[0].0 != id {
            assert forall|j: int| 1 <= j < tree.len() implies tree[j] == tree.drop_first()[j - 1] by {}
        }
    }
}

impl Ast {
    /// The absolute path of this node found by following the parent links
    /// through `tree` (at most `fuel` of them): the identifiers from the
    /// root, which has no parent, down to this node.
    pub open spec fn parent_chain(self, tree: Seq<(NodeId, &Ast)>, fuel: nat) -> Option<Seq<IdentifierView>>
        decreases fuel,
    {
        match self.parent {
            None => Some(seq![self.identifier@]),
            Some(pid) => if fuel == 0 {
                None
            } else {
                match find_id(tree, pid) {
                    Some(j) => match tree[j].1.parent_chain(tree, (fuel - 1) as nat) {
                        Some(p) => Some(p.push(self.identifier@)),
                        None => None,
                    },
                    None => None,
                }
            },
        }
    }

    /// The absolute path of this node, found by following the parent links
    /// through `tree`, a map from ids to nodes.
    pub fn path(&self, tree: &Vec<(NodeId, &Ast)>) -> (r: Path)
        requires
            self.parent_chain(tree@, tree@.len() as nat) is Some,
        ensures
            r@ == self.parent_chain(tree@, tree@.len() as nat).unwrap(),
    {
        self.path_in(tree, tree.len())
    }

    fn path_in(&self, tree: &Vec<(NodeId, &Ast)>, fuel: usize) -> (r: Path)
        requires
            self.parent_chain(tree@, fuel as nat) is Some,
        ensures
            r@ == self.parent_chain(tree@, fuel as nat).unwrap(),
        decreases fuel,
    {
        match self.parent {
            Some(parent_id) => {
                let mut i: usize = 0;
                proof { lemma_find_id(tree@, parent_id); }
                while i < tree.len() && tree[i].0 != parent_id
                    invariant
                        i <= tree@.len(),
                        forall|j: int| 0 <= j < i ==> tree@[j].0 != parent_id,
                        match find_id(tree@, parent_id) {
                            Some(k) => 0 <= k < tree@.len() && tree@[k].0 == parent_id && forall|j: int| 0 <= j < k ==> tree@[j].0 != parent_id,
                            None => forall|j: int| 0 <= j < tree@.len() ==> tree@[j].0 != parent_id,
                        },
                    decreases tree@.len() - i,
                {
                    i = i + 1;
                }
                assert(find_id(tree@, parent_id) == Some(i as int));
                let parent_path = tree[i].1.path_in(tree, fuel - 1);
                parent_path.append(self.identifier.clone())
            },
            None => Path::from_identifier(self.identifier.clone()),
        }
    }
}

/// Merging keeps every node of the tree merged into: where it has a node,
/// the merged tree has a node of the same shape.
pub proof fn law_merge_keeps_own_nodes(a: Ast, b: Ast, p: Seq<IdentifierView>)
    requires
        a.shape_at(p) is Some,
    ensures
        merged_shape(a, b, p) == a.shape_at(p),
{
}

/// Merging adds the nodes of the merged-in tree that the tree lacked.
pub proof fn law_merge_adds_missing_nodes(a: Ast, b: Ast, p: Seq<IdentifierView>)
    requires
        a.shape_at(p) is None,
    ensures
        merged_shape(a, b, p) == b.shape_at(p),
{
}

/// After a merge there is a node exactly where one of the two trees had one.
pub proof fn law_merge_nodes_are_the_union(a: Ast, b: Ast, p: Seq<IdentifierView>)
    ensures
        merged_shape(a, b, p) is Some <==> (a.shape_at(p) is Some || b.shape_at(p) is Some),
{
}

/// Merging a tree with one of the same shapes changes no shape.
pub proof fn law_merge_same_shapes(a: Ast, b: Ast, p: Seq<IdentifierView>)
    requires
        forall|q: Seq<IdentifierView>| #[trigger] a.shape_at(q) == b.shape_at(q),
    ensures
        merged_shape(a, b, p) == a.shape_at(p),
{
    assert(a.shape_at(p) == b.shape_at(p));
}

/// Merging links every node that it takes over from the merged-in tree:
/// one taken over right under a node of the tree merged into links to that
/// node, and one taken over further below keeps the link it had.
pub proof fn law_merge_parent_links(a: Ast, b: Ast, p: Seq<IdentifierView>)
    requires
        a.lookup(p) is None,
        b.lookup(p) is Some,
    ensures
        merged_parent(a, b, p) == match a.lookup(p.drop_last()) {
            Some(q) => Some(Some(q.id)),
            None => b.parent_at(p),
        },
    decreases p.len(),
{
    assert(p.len() > 0);
    let rest = p.drop_first();
    a.lemma_parent_at_cons(p);
    b.lemma_parent_at_cons(p);
    if p.len() > 1 {
        let d = p.drop_last();
        assert(d[0] == p[0]);
        assert(d.drop_first() =~= rest.drop_last());
        a.lemma_parent_at_cons(d);
    }
    match a.child(p[0]) {
        Some(x) => {
            let y = b.child(p[0]).unwrap();
            law_merge_parent_links(x, y, rest);
        },
        None => {
            if p.len() == 1 {
                assert(p.drop_last() =~= Seq::<IdentifierView>::empty());
            }
        },
    }
}

/// The node maps of a well-formed tree agree: the `j`-th entries of
/// `id_to_path_map` and `path_to_node_id_map` are the same id and path
/// (both are `tree_nodes` paired with `tree_paths`), there is one entry per
/// node, and each recorded path leads back to its node.
pub proof fn law_path_maps_agree(t: Ast)
    requires
        t.wf(),
    ensures
        tree_paths(t).len() == tree_nodes(t).len(),
        forall|j: int| 0 <= j < tree_nodes(t).len() ==> t.lookup(#[trigger] tree_paths(t)[j]) == Some(tree_nodes(t)[j]),
        forall|q: Seq<IdentifierView>| #[trigger] t.lookup(q) is Some ==> exists|j: int| 0 <= j < tree_paths(t).len() && tree_paths(t)[j] == q,
{
    lemma_paths_len(t, t.kids().len() as int);
    lemma_paths_sound(t, t.kids().len() as int);
    lemma_paths_complete(t, t.kids().len() as int);
    assert forall|q: Seq<IdentifierView>| #[trigger] t.lookup(q) is Some implies exists|j: int| 0 <= j < tree_paths(t).len() && tree_paths(t)[j] == q by {
        if q.len() > 0 {
            lemma_find_key(t.kids(), q[0]);
        }
    }
}

/// Looking up a path of one identifier finds the child under it.
pub proof fn law_lookup_single(t: Ast, id: IdentifierView)
    ensures
        t.lookup(seq![id]) == t.child(id),
{
    let e = Seq::<IdentifierView>::empty();
    assert(seq![id].drop_first() =~= e);
    assert(seq![id][0] == id);
    if let Some(c) = t.child(id) {
        assert(c.lookup(e) == Some(c));
    }
}

/// Looking up a concatenation of paths looks up the second from the node
/// that the first reaches.
pub proof fn law_lookup_concat(t: Ast, p: Seq<IdentifierView>, q: Seq<IdentifierView>)
    ensures
        t.lookup(p + q) == match t.lookup(p) {
            Some(n) => n.lookup(q),
            None => None,
        },
    decreases p.len(),
{
    if p.len() > 0 {
        assert((p + q)[0] == p[0]);
        assert((p + q).drop_first() =~= p.drop_first() + q);
        match t.child(p[0]) {
            Some(c) => law_lookup_concat(c, p.drop_first(), q),
            None => {},
        }
    } else {
        assert(p + q =~= q);
    }
}

impl Ast {
    /// The two trees are copies of each other: the same identifiers, ids,
    /// parents and kinds (literal values by their views), node for node.
    pub open spec fn similar(self, other: Ast) -> bool
        decreases self,
    {
        &&& self.identifier == other.identifier
        &&& self.id == other.id
        &&& self.parent == other.parent
        &&& self.kind() == other.kind()
        &&& match self.value {
            NodeValue::Composite { children, .. } => match other.value {
                NodeValue::Composite { children: other_children, .. } => {
                    &&& children@.len() == other_children@.len()
                    &&& forall|i: int| 0 <= i < children@.len() ==> (#[trigger] children@[i]).0 == other_children@[i].0
                        && children@[i].1.similar(other_children@[i].1)
                },
                NodeValue::Literal(_) => false,
            },
            NodeValue::Literal(_) => other.value is Literal,
        }
    }

    fn deep_clone(&self) -> (r: Ast)
        ensures
            r.similar(*self),
        decreases self,
    {
        let value = match &self.value {
            NodeValue::Composite { children, value } => {
                let mut v: Vec<(Identifier, Ast)> = Vec::new();
                let mut i: usize = 0;
                while i < children.len()
                    invariant
                        self.value == (NodeValue::Composite { children: *children, value: *value }),
                        i <= children@.len(),
                        v@.len() == i,
                        forall|k: int| 0 <= k < i ==> (#[trigger] v@[k]).0 == children@[k].0 && v@[k].1.similar(children@[k].1),
                    decreases children@.len() - i,
                {
                    assert(decreases_to!(self => self.value));
                    assert(self.value->children == *children);
                    assert(decreases_to!(self.value => self.value->children));
                    assert(decreases_to!(*children => children@));
                    assert(decreases_to!(children@ => children@[i as int]));
                    assert(decreases_to!(children@[i as int] => children@[i as int].1));
                    let c = children[i].1.deep_clone();
                    v.push((children[i].0.clone(), c));
                    i = i + 1;
                }
                NodeValue::Composite { children: v, value: value.clone() }
            },
            NodeValue::Literal(l) => NodeValue::Literal(l.clone()),
        };
        Ast { identifier: self.identifier.clone(), value, id: self.id, parent: self.parent }
    }
}

impl Clone for Ast {
    fn clone(&self) -> (r: Self)
        ensures
            r.similar(*self),
    {
        self.deep_clone()
    }
}

/// Keys equal by view are found at the same places.
pub proof fn lemma_find_key_same_keys<T, U>(a: Seq<(Identifier, T)>, b: Seq<(Identifier, U)>, id: IdentifierView)
    requires
        a.len() == b.len(),
        forall|i: int| 0 <= i < a.len() ==> #[trigger] a[i].0@ == b[i].0@,
    ensures
        find_key(a, id) == find_key(b, id),
    decreases a.len(),
{
    if a.len() > 0 {
        assert(a[0].0@ == b[0].0@);
        assert forall|i: int| 0 <= i < a.drop_first().len() implies #[trigger] a.drop_first()[i].0@ == b.drop_first()[i].0@ by {
            assert(a[i + 1].0@ == b[i + 1].0@);
        }
        lemma_find_key_same_keys(a.drop_first(), b.drop_first(), id);
    }
}

/// Copies have the same shapes everywhere.
pub proof fn lemma_similar_shapes(a: Ast, b: Ast, p: Seq<IdentifierView>)
    requires
        a.similar(b),
    ensures
        a.shape_at(p) == b.shape_at(p),
    decreases p.len(),
{
    if p.len() > 0 {
        assert forall|i: int| 0 <= i < a.kids().len() implies #[trigger] a.kids()[i].0@ == b.kids()[i].0@ by {
            assert(a.kids()[i].0 == b.kids()[i].0);
        }
        lemma_find_key_same_keys(a.kids(), b.kids(), p[0]);
        lemma_find_key(a.kids(), p[0]);
        if let Some(i) = find_key(a.kids(), p[0]) {
            assert(a.kids()[i].1.similar(b.kids()[i].1));
            lemma_similar_shapes(a.kids()[i].1, b.kids()[i].1, p.drop_first());
        }
    }
}

/// Copies are well-formed alike.
pub proof fn lemma_similar_wf(a: Ast, b: Ast)
    requires
        a.similar(b),
    ensures
        a.wf() == b.wf(),
    decreases a,
{
    match a.value {
        NodeValue::Composite { children, .. } => {
            match b.value {
                NodeValue::Composite { children: bc, .. } => {
                    assert forall|i: int| 0 <= i < children@.len() implies (#[trigger] children@[i]).1.wf() == bc@[i].1.wf() by {
                        assert(decreases_to!(a => a.value));
                        lemma_similar_wf(children@[i].1, bc@[i].1);
                    }
                    assert forall|i: int| 0 <= i < children@.len() implies #[trigger] children@[i].0@ == bc@[i].0@ by {
                        assert(children@[i].0 == bc@[i].0);
                    }
                    assert forall|i: int| 0 <= i < children@.len() implies (#[trigger] children@[i]).1.identifier == bc@[i].1.identifier by {
                        assert(children@[i].1.similar(bc@[i].1));
                    }
                    if unique_keys(children@) {
                        assert forall|i: int, j: int| 0 <= i < bc@.len() && 0 <= j < bc@.len() && i != j implies bc@[i].0@ != bc@[j].0@ by {
                            assert(children@[i].0@ == bc@[i].0@);
                            assert(children@[j].0@ == bc@[j].0@);
                        }
                    }
                    if unique_keys(bc@) {
                        assert forall|i: int, j: int| 0 <= i < children@.len() && 0 <= j < children@.len() && i != j implies children@[i].0@ != children@[j].0@ by {
                            assert(children@[i].0@ == bc@[i].0@);
                            assert(children@[j].0@ == bc@[j].0@);
                        }
                    }
                    if a.wf() {
                        assert forall|i: int| 0 <= i < bc@.len() implies (#[trigger] bc@[i]).0@ == bc@[i].1.identifier@ && bc@[i].1.wf() by {
                            assert(children@[i].0@ == children@[i].1.identifier@);
                        }
                        assert(b.wf());
                    }
                    if b.wf() {
                        assert forall|i: int| 0 <= i < children@.len() implies (#[trigger] children@[i]).0@ == children@[i].1.identifier@ && children@[i].1.wf() by {
                            assert(bc@[i].0@ == bc@[i].1.identifier@);
                        }
                        assert(a.wf());
                    }
                },
                NodeValue::Literal(_) => {},
            }
        },
        NodeValue::Literal(_) => {},
    }
}

/// A node of the kind `k` can take a child under `id`: it is a composite,
/// and `id` is a field name for a struct and a tuple index otherwise.
pub open spec fn kind_can_adopt(k: Kind, id: IdentifierView) -> bool {
    match k {
        Kind::Composite(CompositeValue::Struct) => id is Field,
        Kind::Composite(_) => id is TupleIndex,
        Kind::Literal(_) => false,
    }
}

/// `b` can be merged into a tree with the shapes `a`: wherever `b` has a node
/// that the tree lacks, under a node that the tree has, that node can take
/// it as a child.
pub open spec fn shapes_mergeable(a: spec_fn(Seq<IdentifierView>) -> Option<Shape>, b: Ast) -> bool {
    forall|q: Seq<IdentifierView>| q.len() > 0 && (#[trigger] b.shape_at(q)) is Some && a(q) is None && a(q.drop_last()) is Some
        ==> kind_can_adopt(a(q.drop_last()).unwrap().1, q.last())
}

/// Merging succeeds where the shapes of the tree allow it.
pub proof fn lemma_shapes_mergeable(a: Ast, shapes: spec_fn(Seq<IdentifierView>) -> Option<Shape>, b: Ast)
    requires
        a.wf(),
        b.wf(),
        forall|p: Seq<IdentifierView>| #[trigger] a.shape_at(p) == shapes(p),
        shapes_mergeable(shapes, b),
    ensures
        a.mergeable(b),
    decreases b,
{
    match b.value {
        NodeValue::Composite { children, .. } => {
            assert forall|i: int| 0 <= i < children@.len() implies match a.child((#[trigger] children@[i]).1.identifier@) {
                Some(c) => c.mergeable(children@[i].1),
                None => a.can_adopt(children@[i].1),
            } by {
                let kid = children@[i].1;
                let cid = kid.identifier@;
                assert(children@[i].0@ == cid);
                lemma_find_own_key(children@, i);
                let one = seq![cid];
                assert(one.drop_first() =~= Seq::<IdentifierView>::empty());
                assert(one[0] == cid);
                assert(b.child(cid) == Some(kid));
                assert(kid.lookup(one.drop_first()) == Some(kid));
                assert(b.shape_at(one) is Some);
                assert(one.drop_last() =~= Seq::<IdentifierView>::empty());
                assert(a.shape_at(one.drop_last()) is Some);
                match a.child(cid) {
                    Some(c) => {
                        assert(decreases_to!(b => b.value));
                        assert(b.value->children == children);
                        assert(decreases_to!(b.value => b.value->children));
                        assert(decreases_to!(children => children@));
                        assert(decreases_to!(children@ => children@[i]));
                        assert(decreases_to!(children@[i] => children@[i].1));
                        lemma_find_key(a.kids(), cid);
                        let k = find_key(a.kids(), cid).unwrap();
                        assert(c.wf());
                        let below = |p: Seq<IdentifierView>| shapes(seq![cid] + p);
                        assert forall|p: Seq<IdentifierView>| #[trigger] c.shape_at(p) == below(p) by {
                            let cp = seq![cid] + p;
                            assert(cp[0] == cid);
                            assert(cp.drop_first() =~= p);
                            a.lemma_shape_at_cons(cp);
                            assert(a.shape_at(cp) == shapes(cp));
                        }
                        assert forall|q: Seq<IdentifierView>| q.len() > 0 && (#[trigger] kid.shape_at(q)) is Some && below(q) is None && below(q.drop_last()) is Some
                            implies kind_can_adopt(below(q.drop_last()).unwrap().1, q.last()) by {
                            let bq = seq![cid] + q;
                            assert(bq[0] == cid);
                            assert(bq.drop_first() =~= q);
                            b.lemma_shape_at_cons(bq);
                            assert(b.shape_at(bq) is Some);
                            assert(bq.drop_last() =~= seq![cid] + q.drop_last());
                            assert(bq.last() == q.last());
                        }
                        lemma_shapes_mergeable(c, below, kid);
                    },
                    None => {
                        a.lemma_shape_at_cons(one);
                        assert(a.shape_at(one) is None);
                        assert(shapes(one) is None);
                        assert(kind_can_adopt(a.kind(), cid));
                    },
                }
            }
        },
        NodeValue::Literal(_) => {},
    }
}

/// The shape at `p` after merging `locals[1..k]` one after the other into
/// `locals[0]`: that of the first of `locals[..k]` with a node at `p`.
pub open spec fn stacked_shape(locals: Seq<Ast>, k: int, p: Seq<IdentifierView>) -> Option<Shape>
    decreases k,
{
    if k <= 0 {
        None
    } else {
        let prev = stacked_shape(locals, k - 1, p);
        if prev is Some {
            prev
        } else {
            locals[k - 1].shape_at(p)
        }
    }
}

/// The trees can be merged one after the other, in order, into the first.
pub open spec fn stack_mergeable(locals: Seq<Ast>) -> bool {
    &&& forall|i: int| 0 <= i < locals.len() ==> (#[trigger] locals[i]).wf()
    &&& forall|k: int| 1 <= k < locals.len() ==> shapes_mergeable(|p: Seq<IdentifierView>| stacked_shape(locals, k, p), #[trigger] locals[k])
}

/// Merges clones of `locals[1..]` one after the other into a clone of
/// `locals[0]`.
pub fn merge_all(locals: &Vec<Ast>) -> (r: Ast)
    requires
        locals@.len() >= 1,
        stack_mergeable(locals@),
    ensures
        r.wf(),
        r.identifier == locals@[0].identifier,
        r.id == locals@[0].id,
        forall|p: Seq<IdentifierView>| #[trigger] r.shape_at(p) == stacked_shape(locals@, locals@.len() as int, p),
{
    let mut acc = locals[0].clone();
    proof {
        lemma_similar_wf(acc, locals@[0]);
        assert forall|p: Seq<IdentifierView>| #[trigger] acc.shape_at(p) == stacked_shape(locals@, 1, p) by {
            assert(stacked_shape(locals@, 0, p) is None);
            lemma_similar_shapes(acc, locals@[0], p);
        }
    }
    let mut k: usize = 1;
    while k < locals.len()
        invariant
            1 <= k <= locals@.len(),
            stack_mergeable(locals@),
            acc.wf(),
            acc.identifier == locals@[0].identifier,
            acc.id == locals@[0].id,
            forall|p: Seq<IdentifierView>| #[trigger] acc.shape_at(p) == stacked_shape(locals@, k as int, p),
        decreases locals@.len() - k,
    {
        let next = locals[k].clone();
        proof {
            lemma_similar_wf(next, locals@[k as int]);
            assert(locals@[k as int].wf());
            let sh = |p: Seq<IdentifierView>| stacked_shape(locals@, k as int, p);
            assert(shapes_mergeable(sh, locals@[k as int]));
            assert forall|q: Seq<IdentifierView>| #[trigger] next.shape_at(q) == locals@[k as int].shape_at(q) by {
                lemma_similar_shapes(next, locals@[k as int], q);
            }
            assert(shapes_mergeable(sh, next));
            assert forall|p: Seq<IdentifierView>| #[trigger] acc.shape_at(p) == sh(p) by {}
            lemma_shapes_mergeable(acc, sh, next);
        }
        let ghost before = acc;
        acc.merge(next);
        proof {
            assert forall|p: Seq<IdentifierView>| #[trigger] acc.shape_at(p) == stacked_shape(locals@, k + 1, p) by {
                assert(acc.shape_at(p) == merged_shape(before, next, p));
                lemma_similar_shapes(next, locals@[k as int], p);
            }
        }
        k = k + 1;
    }
    acc
}

/// Well-formedness depends on the value of a node alone.
pub proof fn lemma_wf_by_value(a: Ast, b: Ast)
    requires
        a.value == b.value,
    ensures
        a.wf() == b.wf(),
{
    reveal_with_fuel(Ast::wf, 1);
}

/// The index of the entry of `children` under `identifier`.
pub fn find_index(children: &Vec<(Identifier, Ast)>, identifier: &Identifier) -> (r: Option<usize>)
    ensures
        match r {
            Some(i) => find_key(children@, identifier@) == Some(i as int),
            None => find_key(children@, identifier@) is None,
        },
{
    proof { lemma_find_key(children@, identifier@); }
    let mut i: usize = 0;
    while i < children.len()
        invariant
            i <= children@.len(),
            forall|j: int| 0 <= j < i ==> children@[j].0@ != identifier@,
            match find_key(children@, identifier@) {
                Some(k) => 0 <= k < children@.len() && children@[k].0@ == identifier@
                    && forall|j: int| 0 <= j < k ==> children@[j].0@ != identifier@,
                None => forall|j: int| 0 <= j < children@.len() ==> children@[j].0@ != identifier@,
            },
        decreases children@.len() - i,
    {
        if children[i].0 == *identifier {
            return Some(i);
        }
        i = i + 1;
    }
    None
}

} // verus!
