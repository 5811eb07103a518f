use vstd::prelude::*;

use itertools::Itertools;

use crate::ast::Ast;
use crate::identifier::Identifier;
use crate::node_id::NodeId;
use crate::node_value::NodeValue;

verus! {

/// The ids of `node` and of the trees of its first `k` children, in
/// pre-order.
pub open spec fn ids_upto(node: Ast, k: int) -> Seq<NodeId>
    decreases node, k,
{
    match node.value {
        NodeValue::Composite { children, .. } => if 0 < k <= children@.len() {
            ids_upto(node, k - 1) + ids_upto(children@[k - 1].1, children@[k - 1].1.kids().len() as int)
        } else {
            seq![node.id]
        },
        NodeValue::Literal(_) => seq![node.id],
    }
}

/// The ids of all nodes of the tree `node`, in pre-order.
pub open spec fn tree_ids(node: Ast) -> Seq<NodeId> {
    ids_upto(node, node.kids().len() as int)
}

/// Two nodes with the same id and kind, whose children are the same trees
/// up to their parent links, hold the same ids.
pub proof fn lemma_ids_up_to_links(r: Ast, o: Ast, k: int)
    requires
        r.id == o.id,
        r.value is Composite <==> o.value is Composite,
        r.kids().len() == o.kids().len(),
        forall|i: int| 0 <= i < r.kids().len() ==> (#[trigger] r.kids()[i]).1.value == o.kids()[i].1.value
            && r.kids()[i].1.id == o.kids()[i].1.id,
    ensures
        ids_upto(r, k) == ids_upto(o, k),
    decreases k,
{
    if r.value is Composite && 0 < k <= r.kids().len() {
        lemma_ids_up_to_links(r, o, k - 1);
        let a = r.kids()[k - 1].1;
        let b = o.kids()[k - 1].1;
        assert(ids_upto(a, a.kids().len() as int) == ids_upto(b, b.kids().len() as int)) by {
            lemma_same_value_same_ids(a, b, a.kids().len() as int);
        }
    }
}

/// Two nodes with the same id and value hold the same ids.
pub proof fn lemma_same_value_same_ids(a: Ast, b: Ast, k: int)
    requires
        a.id == b.id,
        a.value == b.value,
    ensures
        ids_upto(a, k) == ids_upto(b, k),
    decreases k,
{
    if a.value is Composite && 0 < k <= a.kids().len() {
        lemma_same_value_same_ids(a, b, k - 1);
    }
}

/// No id occurs twice in `ids`.
pub open spec fn all_distinct(ids: Seq<NodeId>) -> bool {
    forall|i: int, j: int| 0 <= i < j < ids.len() ==> ids[i] != ids[j]
}

/// `itertools::Itertools::all_unique` on the ids: whether no id occurs
/// twice (ids are equal when their numbers are).
#[verifier::external_body]
fn ids_all_unique(ids: &Vec<NodeId>) -> (r: bool)
    ensures
        r == all_distinct(ids@),
{
    ids.iter().all_unique()
}

impl Ast {
    /// Appends the ids of the tree, in pre-order.
    pub fn collect_ids(&self, out: &mut Vec<NodeId>)
        ensures
            final(out)@ == old(out)@ + tree_ids(*self),
        decreases self,
    {
        out.push(self.id);
        let ghost start = old(out)@;
        assert(out@ == start + ids_upto(*self, 0));
        match &self.value {
            NodeValue::Composite { children, .. } => {
                let mut i: usize = 0;
                while i < children.len()
                    invariant
                        self.value == (NodeValue::Composite { children: *children, value: self.value->value }),
                        i <= children@.len(),
                        out@ == start + ids_upto(*self, i as int),
                    decreases children@.len() - i,
                {
                    assert(decreases_to!(self => self.value));
                    assert(decreases_to!(self.value => self.value->children));
                    assert(decreases_to!(*children => children@));
                    assert(decreases_to!(children@ => children@[i as int]));
                    assert(decreases_to!(children@[i as int] => children@[i as int].1));
                    children[i].1.collect_ids(out);
                    assert(out@ =~= start + ids_upto(*self, i + 1));
                    i = i + 1;
                }
            },
            NodeValue::Literal(_) => {},
        }
    }

    /// Whether no id occurs twice in the tree: the check that building a
    /// node is meant to pass.
    pub fn has_unique_ids(&self) -> (r: bool)
        ensures
            r == all_distinct(tree_ids(*self)),
    {
        let mut ids: Vec<NodeId> = Vec::new();
        self.collect_ids(&mut ids);
        assert(ids@ =~= tree_ids(*self));
        ids_all_unique(&ids)
    }

    /// Builds a node as `Ast::new` does and makes the check that its ids
    /// are all distinct: the node where they are, `None` where the given
    /// children repeat an id or the fresh id is one of theirs.
    pub fn new_checked(identifier: Identifier, value: NodeValue) -> (r: Option<Ast>)
        ensures
            match r {
                Some(t) => {
                    &&& t.identifier == identifier
                    &&& t.parent is None
                    &&& t.shape() == (Ast { identifier, value, id: t.id, parent: None }).shape()
                    &&& t.kids().len() == (Ast { identifier, value, id: t.id, parent: None }).kids().len()
                    &&& forall|i: int| 0 <= i < t.kids().len() ==> #[trigger] t.kids()[i] == ((Ast { identifier, value, id: t.id, parent: None }).kids()[i].0,
                        crate::ast::adopted((Ast { identifier, value, id: t.id, parent: None }).kids()[i].1, t.id))
                    &&& tree_ids(t) == tree_ids(Ast { identifier, value, id: t.id, parent: None })
                    &&& all_distinct(tree_ids(t))
                },
                None => exists|id: NodeId| !all_distinct(#[trigger] tree_ids(Ast { identifier, value, id, parent: None })),
            },
    {
        let ghost given_identifier = identifier;
        let ghost given_value = value;
        let t = Ast::new(identifier, value);
        if t.has_unique_ids() {
            Some(t)
        } else {
            assert(!all_distinct(tree_ids(Ast { identifier: given_identifier, value: given_value, id: t.id, parent: None })));
            None
        }
    }
}

} // verus!
