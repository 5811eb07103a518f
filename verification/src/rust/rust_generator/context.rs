use vstd::prelude::*;

use crate::ast::{merge_all, stack_mergeable, stacked_shape, Ast, Kind};
use crate::identifier::{identifier_display, Identifier, IdentifierView, Path as AstPath};
use crate::node_id::NodeId;
use crate::node_value::{CompositeValue, LiteralValue, NodeValue, StringValue};
use crate::rust::generator::path::{gen_mods, gen_ty, Path};
use crate::rust::shared::name::{pascal_name_of, pascal_text, snake_name_of};
use crate::text::string_of;
use crate::rust::shared::name::{NamePascalCase, NameSnakeCase};

verus! {

/// The index of the last entry of `map` under the id `id` (later entries
/// take the place of earlier ones).
pub open spec fn recorded_index<T>(map: Seq<(NodeId, T)>, id: NodeId) -> Option<int>
    decreases map.len(),
{
    if map.len() == 0 {
        None
    } else if map.last().0 == id {
        Some(map.len() - 1)
    } else {
        recorded_index(map.drop_last(), id)
    }
}

/// The index of the last entry of `map` under the path `p`.
pub open spec fn path_index<T>(map: Seq<(AstPath, T)>, p: Seq<IdentifierView>) -> Option<int>
    decreases map.len(),
{
    if map.len() == 0 {
        None
    } else if map.last().0@ == p {
        Some(map.len() - 1)
    } else {
        path_index(map.drop_last(), p)
    }
}

pub proof fn lemma_recorded_index<T>(map: Seq<(NodeId, T)>, id: NodeId)
    ensures
        match recorded_index(map, id) {
            Some(i) => 0 <= i < map.len() && map[i].0 == id && forall|j: int| i < j < map.len() ==> map[j].0 != id,
            None => forall|j: int| 0 <= j < map.len() ==> map[j].0 != id,
        },
    decreases map.len(),
{
    if map.len() > 0 {
        let d = map.drop_last();
        lemma_recorded_index(d, id);
        if map.last().0 != id {
            match recorded_index(d, id) {
                Some(i) => {
                    assert(map[i] == d[i]);
                    assert forall|j: int| i < j < map.len() implies map[j].0 != id by {
                        if j < map.len() - 1 {
                            assert(map[j] == d[j]);
                        }
                    }
                },
                None => {
                    assert forall|j: int| 0 <= j < map.len() implies map[j].0 != id by {
                        if j < map.len() - 1 {
                            assert(map[j] == d[j]);
                        }
                    }
                },
            }
        }
    }
}

pub proof fn lemma_path_index<T>(map: Seq<(AstPath, T)>, p: Seq<IdentifierView>)
    ensures
        match path_index(map, p) {
            Some(i) => 0 <= i < map.len() && map[i].0@ == p && forall|j: int| i < j < map.len() ==> map[j].0@ != p,
            None => forall|j: int| 0 <= j < map.len() ==> map[j].0@ != p,
        },
    decreases map.len(),
{
    if map.len() > 0 {
        let d = map.drop_last();
        lemma_path_index(d, p);
        if map.last().0@ != p {
            match path_index(d, p) {
                Some(i) => {
                    assert(map[i] == d[i]);
                    assert forall|j: int| i < j < map.len() implies map[j].0@ != p by {
                        if j < map.len() - 1 {
                            assert(map[j] == d[j]);
                        }
                    }
                },
                None => {
                    assert forall|j: int| 0 <= j < map.len() implies map[j].0@ != p by {
                        if j < map.len() - 1 {
                            assert(map[j] == d[j]);
                        }
                    }
                },
            }
        }
    }
}

/// The index of the last entry under `id`.
pub fn find_recorded<T>(map: &Vec<(NodeId, T)>, id: NodeId) -> (r: Option<usize>)
    ensures
        match r {
            Some(i) => recorded_index(map@, id) == Some(i as int),
            None => recorded_index(map@, id) is None,
        },
{
    proof { lemma_recorded_index(map@, id); }
    let mut i: usize = map.len();
    while i > 0
        invariant
            i <= map@.len(),
            forall|j: int| i <= j < map@.len() ==> map@[j].0 != id,
            match recorded_index(map@, id) {
                Some(k) => 0 <= k < map@.len() && map@[k].0 == id && forall|j: int| k < j < map@.len() ==> map@[j].0 != id,
                None => forall|j: int| 0 <= j < map@.len() ==> map@[j].0 != id,
            },
        decreases i,
    {
        if map[i - 1].0 == id {
            return Some(i - 1);
        }
        i = i - 1;
    }
    None
}

/// The index of the last entry under the path `p`.
pub fn find_path<T>(map: &Vec<(AstPath, T)>, p: &AstPath) -> (r: Option<usize>)
    ensures
        match r {
            Some(i) => path_index(map@, p@) == Some(i as int),
            None => path_index(map@, p@) is None,
        },
{
    proof { lemma_path_index(map@, p@); }
    let mut i: usize = map.len();
    while i > 0
        invariant
            i <= map@.len(),
            forall|j: int| i <= j < map@.len() ==> map@[j].0@ != p@,
            match path_index(map@, p@) {
                Some(k) => 0 <= k < map@.len() && map@[k].0@ == p@ && forall|j: int| k < j < map@.len() ==> map@[j].0@ != p@,
                None => forall|j: int| 0 <= j < map@.len() ==> map@[j].0@ != p@,
            },
        decreases i,
    {
        if map[i - 1].0 == *p {
            return Some(i - 1);
        }
        i = i - 1;
    }
    None
}

/// The path recorded for `id`, relative to its localization (without the
/// localization's identifier).
pub open spec fn rel_path(map: Seq<(NodeId, AstPath)>, id: NodeId) -> Seq<IdentifierView> {
    map[recorded_index(map, id).unwrap()].1@.drop_first()
}

/// In every localization the node at `rel` (if any) is a list of `amount`
/// elements with children in the reference node, or no list at all.
pub open spec fn same_list_size(locals: Seq<Ast>, rel: Seq<IdentifierView>, amount: usize, has_children: bool) -> bool {
    forall|i: int| 0 <= i < locals.len() ==> match (#[trigger] locals[i]).lookup(rel) {
        Some(n) => match n.value {
            NodeValue::Composite { value: CompositeValue::List { amount: inner }, .. } => inner == amount && has_children,
            _ => true,
        },
        None => true,
    }
}

/// A node can be held in a `Copy` type: it holds no template, and each list
/// in it has the same size in every localization (and some element).
pub open spec fn copyable(map: Seq<(NodeId, AstPath)>, locals: Seq<Ast>, node: Ast) -> bool
    decreases node,
{
    match node.value {
        NodeValue::Literal(LiteralValue::String(StringValue::Template(_))) => false,
        NodeValue::Composite { children, value } => {
            &&& forall|i: int| 0 <= i < children@.len() ==> copyable(map, locals, #[trigger] children@[i].1)
            &&& match value {
                CompositeValue::List { amount } => same_list_size(locals, rel_path(map, node.id), amount, children@.len() > 0),
                _ => true,
            }
        },
        _ => true,
    }
}

/// Every id of the tree `node` is recorded in `map`, with a path of at
/// least one identifier.
#[verifier::opaque]
pub closed spec fn ids_recorded(map: Seq<(NodeId, AstPath)>, node: Ast) -> bool {
    &&& forall|q: Seq<IdentifierView>| #[trigger] node.lookup(q) is Some ==> recorded_index(map, node.lookup(q).unwrap().id) is Some
    &&& forall|j: int| 0 <= j < map.len() ==> (#[trigger] map[j]).1@.len() >= 1
}

/// Every entry of `out` is the path recorded for a node of `node`'s tree
/// with whether that node is copyable.
#[verifier::opaque]
pub closed spec fn copy_entries_sound(map: Seq<(NodeId, AstPath)>, locals: Seq<Ast>, node: Ast, out: Seq<(AstPath, bool)>, start: int) -> bool {
    forall|j: int| start <= j < out.len() ==> exists|q: Seq<IdentifierView>| #![trigger node.lookup(q)] node.lookup(q) is Some
        && (#[trigger] out[j]).0@ == rel_path(map, node.lookup(q).unwrap().id)
        && out[j].1 == copyable(map, locals, node.lookup(q).unwrap())
}

/// Every node of `node`'s tree has an entry in `out` from `start` on: its
/// recorded relative path with whether it is copyable.
#[verifier::opaque]
pub closed spec fn copy_entries_complete(map: Seq<(NodeId, AstPath)>, locals: Seq<Ast>, node: Ast, out: Seq<(AstPath, bool)>, start: int) -> bool {
    forall|q: Seq<IdentifierView>| #![trigger node.lookup(q)] node.lookup(q) is Some ==> exists|j: int| start <= j < out.len()
        && (#[trigger] out[j]).0@ == rel_path(map, node.lookup(q).unwrap().id)
        && out[j].1 == copyable(map, locals, node.lookup(q).unwrap())
}

/// Complete entries stay complete when more entries are appended, and when
/// they are looked for from an earlier start.
proof fn lemma_complete_widen(map: Seq<(NodeId, AstPath)>, locals: Seq<Ast>, node: Ast, out: Seq<(AstPath, bool)>, out2: Seq<(AstPath, bool)>, s1: int, s2: int)
    requires
        0 <= s2 <= s1,
        out.len() <= out2.len(),
        out2.subrange(0, out.len() as int) == out,
        copy_entries_complete(map, locals, node, out, s1),
    ensures
        copy_entries_complete(map, locals, node, out2, s2),
{
    reveal(copy_entries_complete);
    assert forall|q: Seq<IdentifierView>| #![trigger node.lookup(q)] node.lookup(q) is Some implies exists|j: int| s2 <= j < out2.len()
        && (#[trigger] out2[j]).0@ == rel_path(map, node.lookup(q).unwrap().id)
        && out2[j].1 == copyable(map, locals, node.lookup(q).unwrap()) by {
        let j = choose|j: int| s1 <= j < out.len()
            && (#[trigger] out[j]).0@ == rel_path(map, node.lookup(q).unwrap().id)
            && out[j].1 == copyable(map, locals, node.lookup(q).unwrap());
        assert(out2[j] == out2.subrange(0, out.len() as int)[j]);
    }
}

/// A node whose children's trees have complete entries has complete
/// entries once its own entry is appended.
proof fn lemma_complete_after_push(map: Seq<(NodeId, AstPath)>, locals: Seq<Ast>, node: Ast, before: Seq<(AstPath, bool)>, after: Seq<(AstPath, bool)>, start: int)
    requires
        0 <= start <= before.len(),
        after.len() == before.len() + 1,
        after.subrange(0, before.len() as int) == before,
        after.last().0@ == rel_path(map, node.id),
        after.last().1 == copyable(map, locals, node),
        forall|k: int| 0 <= k < node.kids().len() ==> copy_entries_complete(map, locals, #[trigger] node.kids()[k].1, before, start),
    ensures
        copy_entries_complete(map, locals, node, after, start),
{
    reveal(copy_entries_complete);
    let last = after.len() - 1;
    assert forall|q: Seq<IdentifierView>| #![trigger node.lookup(q)] node.lookup(q) is Some implies exists|j: int| start <= j < after.len()
        && (#[trigger] after[j]).0@ == rel_path(map, node.lookup(q).unwrap().id)
        && after[j].1 == copyable(map, locals, node.lookup(q).unwrap()) by {
        if q.len() == 0 {
            assert(node.lookup(q) == Some(node));
            assert(after[last].0@ == rel_path(map, node.lookup(q).unwrap().id));
        } else {
            let kids = node.kids();
            crate::ast::lemma_find_key(kids, q[0]);
            let k = crate::ast::find_key(kids, q[0]).unwrap();
            let c = kids[k].1;
            assert(node.lookup(q) == c.lookup(q.drop_first()));
            assert(copy_entries_complete(map, locals, c, before, start));
            lemma_complete_widen(map, locals, c, before, after, start, start);
            assert(c.lookup(q.drop_first()) is Some);
            let j = choose|j: int| start <= j < after.len()
                && (#[trigger] after[j]).0@ == rel_path(map, c.lookup(q.drop_first()).unwrap().id)
                && after[j].1 == copyable(map, locals, c.lookup(q.drop_first()).unwrap());
        }
    }
}

/// Records, for `node` and the nodes below it, whether they are copyable,
/// and returns it for `node`. The children are visited in order, and no
/// further once one of them is found not copyable.
#[verifier::spinoff_prover]
#[verifier::rlimit(60)]
pub fn create_is_copy_tree(
    node: &Ast,
    id_to_path: &Vec<(NodeId, AstPath)>,
    localizations: &Vec<Ast>,
    relative_path_to_is_copy: &mut Vec<(AstPath, bool)>,
) -> (r: bool)
    requires
        node.wf(),
        ids_recorded(id_to_path@, *node),
    ensures
        r == copyable(id_to_path@, localizations@, *node),
        final(relative_path_to_is_copy)@.len() > old(relative_path_to_is_copy)@.len(),
        final(relative_path_to_is_copy)@.subrange(0, old(relative_path_to_is_copy)@.len() as int) == old(relative_path_to_is_copy)@,
        final(relative_path_to_is_copy)@.last().0@ == rel_path(id_to_path@, node.id),
        final(relative_path_to_is_copy)@.last().1 == r,
        copy_entries_sound(id_to_path@, localizations@, *node, final(relative_path_to_is_copy)@, old(relative_path_to_is_copy)@.len() as int),
        r ==> copy_entries_complete(id_to_path@, localizations@, *node, final(relative_path_to_is_copy)@, old(relative_path_to_is_copy)@.len() as int),
    decreases node,
{
    reveal(ids_recorded);
    reveal(copy_entries_sound);
    let ghost map = id_to_path@;
    let ghost locals = localizations@;
    let ghost start = relative_path_to_is_copy@.len() as int;
    let ghost empty = Seq::<IdentifierView>::empty();
    assert(node.lookup(empty) == Some(*node));
    let idx = find_recorded(id_to_path, node.id).unwrap();
    proof { lemma_recorded_index(map, node.id); }
    let relative_comfy_path = id_to_path[idx].1.clone().remove(0).unwrap();
    assert(relative_comfy_path@ == rel_path(map, node.id)) by {
        assert(map[idx as int].1@.remove(0) =~= map[idx as int].1@.drop_first());
    }
    let is_copy = match &node.value {
        NodeValue::Literal(LiteralValue::String(StringValue::Template(_))) => false,
        NodeValue::Composite { children, value } => {
            let mut same_size = true;
            if let CompositeValue::List { amount } = value {
                let mut li: usize = 0;
                while li < localizations.len()
                    invariant
                        li <= locals.len(),
                        locals == localizations@,
                        same_size == (forall|i: int| 0 <= i < li ==> match (#[trigger] locals[i]).lookup(relative_comfy_path@) {
                            Some(n) => match n.value {
                                NodeValue::Composite { value: CompositeValue::List { amount: inner }, .. } => inner == *amount && children@.len() > 0,
                                _ => true,
                            },
                            None => true,
                        }),
                    decreases locals.len() - li,
                {
                    let ok = match localizations[li].by_path(&relative_comfy_path) {
                        Some(ast) => match &ast.value {
                            NodeValue::Composite { value: CompositeValue::List { amount: inner_amount }, .. } => *inner_amount == *amount && children.len() > 0,
                            _ => true,
                        },
                        None => true,
                    };
                    same_size = same_size && ok;
                    li = li + 1;
                }
            }
            let mut all_copy = true;
            let mut i: usize = 0;
            while i < children.len() && all_copy
                invariant
                    node.value == (NodeValue::Composite { children: *children, value: *value }),
                    node.wf(),
                    ids_recorded(map, *node),
                    map == id_to_path@,
                    locals == localizations@,
                    i <= children@.len(),
                    all_copy == (forall|k: int| 0 <= k < i ==> copyable(map, locals, #[trigger] children@[k].1)),
                    relative_path_to_is_copy@.len() >= start,
                    start >= 0,
                    relative_path_to_is_copy@.subrange(0, start) == old(relative_path_to_is_copy)@,
                    copy_entries_sound(map, locals, *node, relative_path_to_is_copy@, start),
                    all_copy ==> forall|k: int| 0 <= k < i ==> copy_entries_complete(map, locals, #[trigger] children@[k].1, relative_path_to_is_copy@, start),
                decreases children@.len() - i,
            {
                proof {
                    reveal(ids_recorded);
                    reveal(copy_entries_sound);
                }
                let ghost kid = children@[i as int];
                proof {
                    crate::ast::lemma_find_own_key(children@, i as int);
                }
                assert(kid.1.wf());
                let ghost key = seq![kid.0@];
                assert(key[0] == kid.0@);
                assert(decreases_to!(node => node.value));
                assert(node.value->children == *children);
                assert(decreases_to!(node.value => node.value->children));
                assert(decreases_to!(*children => children@));
                assert(decreases_to!(children@ => children@[i as int]));
                assert(decreases_to!(children@[i as int] => children@[i as int].1));
                assert(ids_recorded(map, kid.1)) by {
                    assert forall|q: Seq<IdentifierView>| #[trigger] kid.1.lookup(q) is Some implies recorded_index(map, kid.1.lookup(q).unwrap().id) is Some by {
                        let fq = key + q;
                        assert(fq[0] == kid.0@);
                        assert(fq.drop_first() =~= q);
                        assert(node.lookup(fq) == kid.1.lookup(q));
                    }
                }
                let ghost before = relative_path_to_is_copy@;
                let c = create_is_copy_tree(&children[i].1, id_to_path, localizations, relative_path_to_is_copy);
                proof {
                    let after = relative_path_to_is_copy@;
                    assert(after.subrange(0, start) =~= before.subrange(0, start));
                    assert forall|j: int| start <= j < after.len() implies exists|q: Seq<IdentifierView>| #![trigger node.lookup(q)] node.lookup(q) is Some
                        && (#[trigger] after[j]).0@ == rel_path(map, node.lookup(q).unwrap().id)
                        && after[j].1 == copyable(map, locals, node.lookup(q).unwrap()) by {
                        if j < before.len() {
                            assert(after[j] == after.subrange(0, before.len() as int)[j]);
                            assert(after[j] == before[j]);
                        } else {
                            let q0 = choose|q: Seq<IdentifierView>| #![trigger kid.1.lookup(q)] kid.1.lookup(q) is Some
                                && (#[trigger] after[j]).0@ == rel_path(map, kid.1.lookup(q).unwrap().id)
                                && after[j].1 == copyable(map, locals, kid.1.lookup(q).unwrap());
                            let fq = key + q0;
                            assert(fq[0] == kid.0@);
                            assert(fq.drop_first() =~= q0);
                            assert(node.lookup(fq) == kid.1.lookup(q0));
                        }
                    }
                    if c {
                        assert forall|k: int| 0 <= k < i + 1 implies copy_entries_complete(map, locals, #[trigger] children@[k].1, after, start) by {
                            if k < i {
                                lemma_complete_widen(map, locals, children@[k].1, before, after, start, start);
                            } else {
                                assert(after.subrange(0, after.len() as int) =~= after);
                                lemma_complete_widen(map, locals, children@[k].1, after, after, before.len() as int, start);
                            }
                        }
                    }
                }
                all_copy = c;
                i = i + 1;
            }
            all_copy && same_size
        },
        _ => true,
    };
    let ghost before = relative_path_to_is_copy@;
    relative_path_to_is_copy.push((relative_comfy_path, is_copy));
    proof {
        let after = relative_path_to_is_copy@;
        assert(after.subrange(0, start) =~= before.subrange(0, start));
        assert forall|j: int| start <= j < after.len() implies exists|q: Seq<IdentifierView>| #![trigger node.lookup(q)] node.lookup(q) is Some
            && (#[trigger] after[j]).0@ == rel_path(map, node.lookup(q).unwrap().id)
            && after[j].1 == copyable(map, locals, node.lookup(q).unwrap()) by {
            if j < before.len() {
                assert(after[j] == before[j]);
            } else {
                assert(node.lookup(empty) == Some(*node));
            }
        }
        if is_copy {
            assert(after.subrange(0, before.len() as int) =~= before);
            lemma_complete_after_push(map, locals, *node, before, after, start);
        }
    }
    is_copy
}

/// A shape found after stacking the trees is the shape of one of them.
pub proof fn lemma_stacked_shape_source(locals: Seq<Ast>, k: int, p: Seq<IdentifierView>)
    requires
        0 <= k <= locals.len(),
        stacked_shape(locals, k, p) is Some,
    ensures
        exists|i: int| 0 <= i < k && (#[trigger] locals[i]).shape_at(p) == stacked_shape(locals, k, p),
    decreases k,
{
    if k > 0 {
        if stacked_shape(locals, k - 1, p) is Some {
            lemma_stacked_shape_source(locals, k - 1, p);
            let i = choose|i: int| 0 <= i < k - 1 && (#[trigger] locals[i]).shape_at(p) == stacked_shape(locals, k - 1, p);
            assert(locals[i].shape_at(p) == stacked_shape(locals, k, p));
        } else {
            assert(locals[k - 1].shape_at(p) == stacked_shape(locals, k, p));
        }
    }
}

/// The entries of `map` are the ids of the nodes of `locals` with their
/// absolute paths, and every node of `locals` has an entry.
#[verifier::opaque]
pub closed spec fn id_paths_of(map: Seq<(NodeId, AstPath)>, locals: Seq<Ast>) -> bool {
    &&& forall|j: int| 0 <= j < map.len() ==> exists|i: int| 0 <= i < locals.len()
        && (#[trigger] locals[i]).is_absolute_path((#[trigger] map[j]).1@) && locals[i].at_absolute_path(map[j].1@).id == map[j].0
    &&& forall|i: int, p: Seq<IdentifierView>| 0 <= i < locals.len() && #[trigger] locals[i].is_absolute_path(p)
        ==> exists|j: int| 0 <= j < map.len() && (#[trigger] map[j]).1@ == p && map[j].0 == locals[i].at_absolute_path(p).id
}

/// The entries of `map` are the absolute paths of the nodes of `locals`
/// with their ids, and every node of `locals` has an entry.
#[verifier::opaque]
pub closed spec fn path_ids_of(map: Seq<(AstPath, NodeId)>, locals: Seq<Ast>) -> bool {
    &&& forall|j: int| 0 <= j < map.len() ==> exists|i: int| 0 <= i < locals.len()
        && (#[trigger] locals[i]).is_absolute_path((#[trigger] map[j]).0@) && locals[i].at_absolute_path(map[j].0@).id == map[j].1
    &&& forall|i: int, p: Seq<IdentifierView>| 0 <= i < locals.len() && #[trigger] locals[i].is_absolute_path(p)
        ==> exists|j: int| 0 <= j < map.len() && (#[trigger] map[j]).0@ == p && map[j].1 == locals[i].at_absolute_path(p).id
}

/// No localization has an entry yet where none was seen.
pub proof fn lemma_id_paths_empty(map: Seq<(NodeId, AstPath)>, locals: Seq<Ast>)
    requires
        map.len() == 0,
        locals.len() == 0,
    ensures
        id_paths_of(map, locals),
{
    reveal(id_paths_of);
}

/// The recorded path of a node is the absolute path of a node with its id
/// in one of the localizations.
pub proof fn lemma_recorded_path_of(map: Seq<(NodeId, AstPath)>, locals: Seq<Ast>, id: NodeId)
    requires
        id_paths_of(map, locals),
        recorded_index(map, id) is Some,
    ensures
        exists|i: int| 0 <= i < locals.len() && (#[trigger] locals[i]).is_absolute_path(map[recorded_index(map, id).unwrap()].1@)
            && locals[i].at_absolute_path(map[recorded_index(map, id).unwrap()].1@).id == id,
{
    reveal(id_paths_of);
    lemma_recorded_index(map, id);
    let j = recorded_index(map, id).unwrap();
    assert(map[j].0 == id);
}

/// Every node of the localizations has its id recorded.
pub proof fn lemma_path_recorded(map: Seq<(NodeId, AstPath)>, locals: Seq<Ast>, i: int, p: Seq<IdentifierView>)
    requires
        id_paths_of(map, locals),
        0 <= i < locals.len(),
        locals[i].is_absolute_path(p),
    ensures
        recorded_index(map, locals[i].at_absolute_path(p).id) is Some,
{
    reveal(id_paths_of);
    let j = choose|j: int| 0 <= j < map.len() && (#[trigger] map[j]).1@ == p && map[j].0 == locals[i].at_absolute_path(p).id;
    lemma_recorded_index(map, locals[i].at_absolute_path(p).id);
}

/// Every recorded path holds at least the localization's identifier.
pub proof fn lemma_id_paths_nonempty(map: Seq<(NodeId, AstPath)>, locals: Seq<Ast>)
    requires
        id_paths_of(map, locals),
    ensures
        forall|j: int| 0 <= j < map.len() ==> (#[trigger] map[j]).1@.len() >= 1,
{
    reveal(id_paths_of);
    assert forall|j: int| 0 <= j < map.len() implies (#[trigger] map[j]).1@.len() >= 1 by {
        let i = choose|i: int| 0 <= i < locals.len()
            && (#[trigger] locals[i]).is_absolute_path(map[j].1@) && locals[i].at_absolute_path(map[j].1@).id == map[j].0;
    }
}

/// Appending the entries of the next localization's nodes keeps the
/// entries those of the localizations seen so far.
#[verifier::spinoff_prover]
#[verifier::rlimit(30)]
pub proof fn lemma_id_paths_extend(before: Seq<(NodeId, AstPath)>, m: Seq<(NodeId, AstPath)>, locals: Seq<Ast>, li: int)
    requires
        0 <= li < locals.len(),
        id_paths_of(before, locals.subrange(0, li)),
        forall|j: int| 0 <= j < m.len() ==> locals[li].is_absolute_path((#[trigger] m[j]).1@) && locals[li].at_absolute_path(m[j].1@).id == m[j].0,
        forall|p: Seq<IdentifierView>| #[trigger] locals[li].is_absolute_path(p) ==> exists|j: int| 0 <= j < m.len() && (#[trigger] m[j]).1@ == p,
    ensures
        id_paths_of(before + m, locals.subrange(0, li + 1)),
{
    reveal(id_paths_of);
    let part = locals.subrange(0, li);
    let next = locals.subrange(0, li + 1);
    let map = before + m;
    assert forall|j: int| 0 <= j < map.len() implies exists|i: int| 0 <= i < next.len()
        && (#[trigger] next[i]).is_absolute_path((#[trigger] map[j]).1@) && next[i].at_absolute_path(map[j].1@).id == map[j].0 by {
        if j < before.len() {
            assert(map[j] == before[j]);
            let i = choose|i: int| 0 <= i < part.len()
                && (#[trigger] part[i]).is_absolute_path(before[j].1@) && part[i].at_absolute_path(before[j].1@).id == before[j].0;
            assert(next[i] == part[i]);
        } else {
            assert(map[j] == m[j - before.len()]);
            assert(next[li] == locals[li]);
        }
    }
    assert forall|i: int, p: Seq<IdentifierView>| 0 <= i < next.len() && #[trigger] next[i].is_absolute_path(p)
        implies exists|j: int| 0 <= j < map.len() && (#[trigger] map[j]).1@ == p && map[j].0 == next[i].at_absolute_path(p).id by {
        if i < li {
            assert(next[i] == part[i]);
            assert(part[i].is_absolute_path(p));
            let j = choose|j: int| 0 <= j < before.len() && (#[trigger] before[j]).1@ == p && before[j].0 == part[i].at_absolute_path(p).id;
            assert(map[j] == before[j]);
        } else {
            assert(next[i] == locals[li]);
            let jj = choose|jj: int| 0 <= jj < m.len() && (#[trigger] m[jj]).1@ == p;
            assert(map[before.len() + jj] == m[jj]);
        }
    }
}

/// Appending the entries of the next localization's nodes keeps the
/// entries those of the localizations seen so far.
#[verifier::spinoff_prover]
#[verifier::rlimit(30)]
pub proof fn lemma_path_ids_extend(before: Seq<(AstPath, NodeId)>, m: Seq<(AstPath, NodeId)>, locals: Seq<Ast>, li: int)
    requires
        0 <= li < locals.len(),
        path_ids_of(before, locals.subrange(0, li)),
        forall|j: int| 0 <= j < m.len() ==> locals[li].is_absolute_path((#[trigger] m[j]).0@) && locals[li].at_absolute_path(m[j].0@).id == m[j].1,
        forall|p: Seq<IdentifierView>| #[trigger] locals[li].is_absolute_path(p) ==> exists|j: int| 0 <= j < m.len() && (#[trigger] m[j]).0@ == p,
    ensures
        path_ids_of(before + m, locals.subrange(0, li + 1)),
{
    reveal(path_ids_of);
    let part = locals.subrange(0, li);
    let next = locals.subrange(0, li + 1);
    let map = before + m;
    assert forall|j: int| 0 <= j < map.len() implies exists|i: int| 0 <= i < next.len()
        && (#[trigger] next[i]).is_absolute_path((#[trigger] map[j]).0@) && next[i].at_absolute_path(map[j].0@).id == map[j].1 by {
        if j < before.len() {
            assert(map[j] == before[j]);
            let i = choose|i: int| 0 <= i < part.len()
                && (#[trigger] part[i]).is_absolute_path(before[j].0@) && part[i].at_absolute_path(before[j].0@).id == before[j].1;
            assert(next[i] == part[i]);
        } else {
            assert(map[j] == m[j - before.len()]);
            assert(next[li] == locals[li]);
        }
    }
    assert forall|i: int, p: Seq<IdentifierView>| 0 <= i < next.len() && #[trigger] next[i].is_absolute_path(p)
        implies exists|j: int| 0 <= j < map.len() && (#[trigger] map[j]).0@ == p && map[j].1 == next[i].at_absolute_path(p).id by {
        if i < li {
            assert(next[i] == part[i]);
            assert(part[i].is_absolute_path(p));
            let j = choose|j: int| 0 <= j < before.len() && (#[trigger] before[j]).0@ == p && before[j].1 == part[i].at_absolute_path(p).id;
            assert(map[j] == before[j]);
        } else {
            assert(next[i] == locals[li]);
            let jj = choose|jj: int| 0 <= jj < m.len() && (#[trigger] m[jj]).0@ == p;
            assert(map[before.len() + jj] == m[jj]);
        }
    }
}

/// Every node of a tree whose shapes are those of the stacked localizations
/// has its id recorded in an entry map of the localizations.
proof fn lemma_reference_ids_recorded(map: Seq<(NodeId, AstPath)>, locals: Seq<Ast>, reference_tree: Ast)
    requires
        id_paths_of(map, locals),
        forall|p: Seq<IdentifierView>| #[trigger] reference_tree.shape_at(p) == stacked_shape(locals, locals.len() as int, p),
    ensures
        ids_recorded(map, reference_tree),
        forall|j: int| 0 <= j < map.len() ==> (#[trigger] map[j]).1@.len() >= 1,
{
    reveal(id_paths_of);
    reveal(ids_recorded);
    assert forall|j: int| 0 <= j < map.len() implies (#[trigger] map[j]).1@.len() >= 1 by {
        let i = choose|i: int| 0 <= i < locals.len()
            && (#[trigger] locals[i]).is_absolute_path(map[j].1@) && locals[i].at_absolute_path(map[j].1@).id == map[j].0;
    }
    assert forall|q: Seq<IdentifierView>| #[trigger] reference_tree.lookup(q) is Some implies recorded_index(map, reference_tree.lookup(q).unwrap().id) is Some by {
        let node = reference_tree.lookup(q).unwrap();
        assert(reference_tree.shape_at(q) == Some(node.shape()));
        lemma_stacked_shape_source(locals, locals.len() as int, q);
        let i = choose|i: int| 0 <= i < locals.len() && (#[trigger] locals[i]).shape_at(q) == stacked_shape(locals, locals.len() as int, q);
        let p = seq![locals[i].identifier@] + q;
        assert(p.drop_first() =~= q);
        assert(locals[i].is_absolute_path(p));
        let j = choose|j: int| 0 <= j < map.len() && (#[trigger] map[j]).1@ == p && map[j].0 == locals[i].at_absolute_path(p).id;
        lemma_recorded_index(map, node.id);
    }
}

/// The localizations of a component, with what the generator derives from
/// them: the paths of their nodes, the merged reference tree and which
/// nodes can be held in `Copy` types.
pub struct Context {
    pub root_name: NameSnakeCase,
    pub localizations: Vec<Ast>,
    pub id_to_path: Vec<(NodeId, AstPath)>,
    pub path_to_id: Vec<(AstPath, NodeId)>,
    pub relative_path_to_is_copy: Vec<(AstPath, bool)>,
    pub reference_tree: Ast,
}

impl Context {
    /// The context is what `new` builds from its localizations.
    pub open spec fn wf(&self) -> bool {
        &&& self.localizations@.len() >= 1
        &&& stack_mergeable(self.localizations@)
        &&& id_paths_of(self.id_to_path@, self.localizations@)
        &&& path_ids_of(self.path_to_id@, self.localizations@)
        &&& self.reference_tree.wf()
        &&& forall|p: Seq<IdentifierView>| #[trigger] self.reference_tree.shape_at(p) == stacked_shape(self.localizations@, self.localizations@.len() as int, p)
        &&& ids_recorded(self.id_to_path@, self.reference_tree)
        &&& forall|j: int| 0 <= j < self.id_to_path@.len() ==> (#[trigger] self.id_to_path@[j]).1@.len() >= 1
        &&& copy_entries_sound(self.id_to_path@, self.localizations@, self.reference_tree, self.relative_path_to_is_copy@, 0)
        &&& copyable(self.id_to_path@, self.localizations@, self.reference_tree)
            ==> copy_entries_complete(self.id_to_path@, self.localizations@, self.reference_tree, self.relative_path_to_is_copy@, 0)
    }

    /// The id `id` has a recorded path.
    pub open spec fn has_id(&self, id: NodeId) -> bool {
        recorded_index(self.id_to_path@, id) is Some
    }

    /// The path of the node `id` relative to its localization.
    pub open spec fn rel(&self, id: NodeId) -> Seq<IdentifierView> {
        rel_path(self.id_to_path@, id)
    }

    /// The identifier of the localization that the node `id` belongs to.
    pub open spec fn variant_of(&self, id: NodeId) -> IdentifierView {
        self.id_to_path@[recorded_index(self.id_to_path@, id).unwrap()].1@[0]
    }

    /// The index of the first localization with the identifier `variant`.
    pub open spec fn localization_index(&self, variant: IdentifierView) -> Option<int> {
        first_with_identifier(self.localizations@, variant)
    }

    /// The node of the localization `variant` at the relative path of the
    /// node `id`.
    pub open spec fn variant_node(&self, id: NodeId, variant: IdentifierView) -> Option<Ast> {
        match self.localization_index(variant) {
            Some(i) => self.localizations@[i].lookup(self.rel(id)),
            None => None,
        }
    }

    /// Builds the context of the localizations of a component: records the
    /// path of every node, merges the localizations in order into the
    /// reference tree, and records which of its nodes are copyable.
    #[verifier::spinoff_prover]
    #[verifier::rlimit(60)]
    pub fn new(localizations: Vec<Ast>, root_name: NameSnakeCase) -> (r: Self)
        requires
            localizations@.len() >= 1,
            stack_mergeable(localizations@),
        ensures
            r.wf(),
            r.root_name@ == root_name@,
            r.localizations@ == localizations@,
    {
        let mut id_to_path: Vec<(NodeId, AstPath)> = Vec::new();
        let mut path_to_id: Vec<(AstPath, NodeId)> = Vec::new();
        let ghost locals = localizations@;
        assert(id_paths_of(id_to_path@, locals.subrange(0, 0))) by { reveal(id_paths_of); }
        assert(path_ids_of(path_to_id@, locals.subrange(0, 0))) by { reveal(path_ids_of); }
        let mut li: usize = 0;
        while li < localizations.len()
            invariant
                locals == localizations@,
                stack_mergeable(locals),
                li <= locals.len(),
                id_paths_of(id_to_path@, locals.subrange(0, li as int)),
                path_ids_of(path_to_id@, locals.subrange(0, li as int)),
            decreases locals.len() - li,
        {
            assert(locals[li as int].wf());
            let mut m = localizations[li].id_to_path_map();
            let mut n = localizations[li].path_to_node_id_map();
            let ghost before_ip = id_to_path@;
            let ghost before_pi = path_to_id@;
            let ghost mv = m@;
            let ghost nv = n@;
            id_to_path.append(&mut m);
            path_to_id.append(&mut n);
            proof {
                lemma_id_paths_extend(before_ip, mv, locals, li as int);
                lemma_path_ids_extend(before_pi, nv, locals, li as int);
            }
            li = li + 1;
        }
        assert(locals.subrange(0, locals.len() as int) =~= locals);
        let reference_tree = merge_all(&localizations);
        proof { lemma_reference_ids_recorded(id_to_path@, locals, reference_tree); }
        let mut relative_path_to_is_copy: Vec<(AstPath, bool)> = Vec::new();
        create_is_copy_tree(&reference_tree, &id_to_path, &localizations, &mut relative_path_to_is_copy);
        Context { root_name, localizations, id_to_path, path_to_id, relative_path_to_is_copy, reference_tree }
    }

    /// The index of the entry of `node_id` in the recorded paths.
    fn entry_of(&self, node_id: &NodeId) -> (r: usize)
        requires
            self.has_id(*node_id),
        ensures
            recorded_index(self.id_to_path@, *node_id) == Some(r as int),
            (r as int) < self.id_to_path@.len(),
    {
        proof { lemma_recorded_index(self.id_to_path@, *node_id); }
        find_recorded(&self.id_to_path, *node_id).unwrap()
    }

    /// The localization path of the node `node_id` without the
    /// localization's identifier.
    fn relative_comfy_path(&self, node_id: &NodeId) -> (r: AstPath)
        requires
            self.wf(),
            self.has_id(*node_id),
        ensures
            r@ == self.rel(*node_id),
    {
        let idx = self.entry_of(node_id);
        let full = self.id_to_path[idx].1.clone();
        assert(full@.len() >= 1);
        let r = full.remove(0).unwrap();
        assert(r@ =~= self.rel(*node_id));
        r
    }

    /// The generated path of the node `node_id` from the component's root
    /// module; a node at the top of its localization is the root type.
    pub fn relative_path_to_root(&self, node_id: &NodeId) -> (r: Path)
        requires
            self.wf(),
            self.has_id(*node_id),
        ensures
            r.mods_v() == gen_mods(self.rel(*node_id)),
            r.ty_v() == if gen_mods(self.rel(*node_id)).len() == 0 {
                Some(pascal_text(self.root_name@))
            } else {
                gen_ty(self.rel(*node_id))
            },
    {
        let path = Path::from_ast_path(self.relative_comfy_path(node_id));
        if path.has_no_mods() {
            path.set_ty(self.root_name.to_pascal_case())
        } else {
            path
        }
    }

    /// Whether the node `node_id` is held in a `Copy` type: what was
    /// recorded for its relative path, `false` where nothing was.
    pub fn is_copy(&self, node_id: &NodeId) -> (r: bool)
        requires
            self.wf(),
            self.has_id(*node_id),
        ensures
            r == match path_index(self.relative_path_to_is_copy@, self.rel(*node_id)) {
                Some(i) => self.relative_path_to_is_copy@[i].1,
                None => false,
            },
    {
        let relative_comfy_path = self.relative_comfy_path(node_id);
        proof { lemma_path_index(self.relative_path_to_is_copy@, relative_comfy_path@); }
        match find_path(&self.relative_path_to_is_copy, &relative_comfy_path) {
            Some(i) => self.relative_path_to_is_copy[i].1,
            None => false,
        }
    }

    /// The localizations, in order.
    pub fn iter(&self) -> (r: &[Ast])
        ensures
            r@ == self.localizations@,
    {
        self.localizations.as_slice()
    }

    /// The tree merged from all localizations.
    pub fn reference_tree(&self) -> (r: &Ast)
        ensures
            *r == self.reference_tree,
    {
        &self.reference_tree
    }

    /// The path of the type that holds the selected localization:
    /// `crate::I18n`.
    pub fn context_key(&self) -> (r: Path)
        ensures
            r.mods_v() == seq![snake_name_of(seq!['c', 'r', 'a', 't', 'e'])],
            r.ty_v() == Some(pascal_name_of(seq!['I', '1', '8', 'n'])),
    {
        let r = Path::root()
            .add_mod(NameSnakeCase::from_string(string_of(&['c', 'r', 'a', 't', 'e'])))
            .set_ty(NamePascalCase::from_string(string_of(&['I', '1', '8', 'n'])));
        assert(r.mods_v() =~= seq![snake_name_of(seq!['c', 'r', 'a', 't', 'e'])]);
        r
    }

    /// The localization path of the node `node_id` in the localization
    /// `variant`.
    pub fn get_variant_comfy_path(&self, node_id: &NodeId, variant: Identifier) -> (r: AstPath)
        requires
            self.wf(),
            self.has_id(*node_id),
        ensures
            r@ == seq![variant@] + self.rel(*node_id),
    {
        self.relative_comfy_path(node_id).prepend(variant)
    }

    /// The node at the relative path of `node_id` in the first
    /// localization named `variant`, if there is such a node.
    pub fn get_variant(&self, node_id: &NodeId, variant: Identifier) -> (r: Option<&Ast>)
        requires
            self.wf(),
            self.localization_index(variant@) is Some ==> self.has_id(*node_id),
        ensures
            match r {
                Some(n) => self.variant_node(*node_id, variant@) == Some(*n),
                None => self.variant_node(*node_id, variant@) is None,
            },
    {
        let mut i: usize = 0;
        let ghost locals = self.localizations@;
        while i < self.localizations.len()
            invariant
                self.wf(),
                self.localization_index(variant@) is Some ==> self.has_id(*node_id),
                locals == self.localizations@,
                i <= locals.len(),
                forall|k: int| 0 <= k < i ==> (#[trigger] locals[k]).identifier@ != variant@,
            decreases locals.len() - i,
        {
            if self.localizations[i].identifier == variant {
                proof { lemma_first_with_identifier(locals, variant@, i as int); }
                let rel = self.get_variant_comfy_path(node_id, variant).remove(0).unwrap();
                assert(rel@ =~= self.rel(*node_id));
                return self.localizations[i].by_path(&rel);
            }
            i = i + 1;
        }
        proof { lemma_first_with_identifier(locals, variant@, locals.len() as int); }
        None
    }

    /// The node `node_id` in its own localization.
    pub fn get(&self, node_id: &NodeId) -> (r: &Ast)
        requires
            self.wf(),
            self.has_id(*node_id),
            self.variant_node(*node_id, self.variant_of(*node_id)) is Some,
        ensures
            self.variant_node(*node_id, self.variant_of(*node_id)) == Some(*r),
    {
        let idx = self.entry_of(node_id);
        let variant = self.id_to_path[idx].1.root();
        self.get_variant(node_id, variant).unwrap()
    }

    /// The identifier of the localization of the node `node_id`, as text.
    pub fn context_variant(&self, node_id: &NodeId) -> (r: String)
        requires
            self.wf(),
            self.has_id(*node_id),
        ensures
            r@ == identifier_display(self.variant_of(*node_id)),
    {
        self.context_variant_identifier(node_id).to_text()
    }

    /// The identifier of the localization of the node `node_id`.
    pub fn context_variant_identifier(&self, node_id: &NodeId) -> (r: Identifier)
        requires
            self.wf(),
            self.has_id(*node_id),
        ensures
            r@ == self.variant_of(*node_id),
    {
        let idx = self.entry_of(node_id);
        self.id_to_path[idx].1.root()
    }

    /// The identifiers of the localizations, in order.
    pub fn context_variants(&self) -> (r: Vec<Identifier>)
        ensures
            r@.len() == self.localizations@.len(),
            forall|i: int| 0 <= i < r@.len() ==> (#[trigger] r@[i])@ == self.localizations@[i].identifier@,
    {
        let mut r: Vec<Identifier> = Vec::new();
        let mut i: usize = 0;
        while i < self.localizations.len()
            invariant
                i <= self.localizations@.len(),
                r@.len() == i,
                forall|k: int| 0 <= k < i ==> (#[trigger] r@[k])@ == self.localizations@[k].identifier@,
            decreases self.localizations@.len() - i,
        {
            r.push(self.localizations[i].identifier.clone());
            i = i + 1;
        }
        r
    }

    /// The identifiers (as text) of the first `k` localizations that have
    /// a node at the relative path of `id`, in order.
    pub open spec fn available_upto(&self, id: NodeId, k: int) -> Seq<Seq<char>>
        decreases k,
    {
        if k <= 0 {
            Seq::empty()
        } else {
            let prev = self.available_upto(id, k - 1);
            let v = self.localizations@[k - 1].identifier@;
            if path_index(self.path_to_id@, seq![v] + self.rel(id)) is Some {
                prev.push(identifier_display(v))
            } else {
                prev
            }
        }
    }

    /// The identifiers (as text) of the localizations that have a node at
    /// the relative path of `node_id`, in order.
    pub fn available_context_variants(&self, node_id: &NodeId) -> (r: Vec<String>)
        requires
            self.wf(),
            self.has_id(*node_id),
        ensures
            r@.map_values(|s: String| s@) == self.available_upto(*node_id, self.localizations@.len() as int),
    {
        let variants = self.context_variants();
        let mut r: Vec<String> = Vec::new();
        let mut i: usize = 0;
        while i < variants.len()
            invariant
                self.wf(),
                self.has_id(*node_id),
                variants@.len() == self.localizations@.len(),
                forall|k: int| 0 <= k < variants@.len() ==> (#[trigger] variants@[k])@ == self.localizations@[k].identifier@,
                i <= variants@.len(),
                r@.map_values(|s: String| s@) == self.available_upto(*node_id, i as int),
            decreases variants@.len() - i,
        {
            let p = self.get_variant_comfy_path(node_id, variants[i].clone());
            proof { lemma_path_index(self.path_to_id@, p@); }
            if find_path(&self.path_to_id, &p).is_some() {
                let ghost before = r@;
                r.push(variants[i].to_text());
                assert(r@.map_values(|s: String| s@) =~= before.map_values(|s: String| s@).push(identifier_display(variants@[i as int]@)));
            }
            i = i + 1;
        }
        r
    }

    /// The name of the component's root.
    pub fn root_name(&self) -> (r: NameSnakeCase)
        ensures
            r@ == self.root_name@,
    {
        self.root_name.clone()
    }
}

/// The index of the first of `locals` with the identifier `variant`.
pub open spec fn first_with_identifier(locals: Seq<Ast>, variant: IdentifierView) -> Option<int>
    decreases locals.len(),
{
    if locals.len() == 0 {
        None
    } else if locals[0].identifier@ == variant {
        Some(0)
    } else {
        match first_with_identifier(locals.drop_first(), variant) {
            Some(i) => Some(i + 1),
            None => None,
        }
    }
}

/// `first_with_identifier` is the first index whose localization has the
/// identifier `variant`.
pub proof fn lemma_first_with_identifier(locals: Seq<Ast>, variant: IdentifierView, i: int)
    requires
        0 <= i <= locals.len(),
        forall|k: int| 0 <= k < i ==> (#[trigger] locals[k]).identifier@ != variant,
        i < locals.len() ==> locals[i].identifier@ == variant,
    ensures
        first_with_identifier(locals, variant) == if i < locals.len() { Some(i) } else { None::<int> },
    decreases i,
{
    if locals.len() > 0 && i > 0 {
        let d = locals.drop_first();
        assert forall|k: int| 0 <= k < i - 1 implies (#[trigger] d[k]).identifier@ != variant by {
            assert(d[k] == locals[k + 1]);
        }
        if i < locals.len() {
            assert(d[i - 1] == locals[i]);
        }
        lemma_first_with_identifier(d, variant, i - 1);
        assert(locals[0].identifier@ != variant);
    }
}

/// Where one of the first `k` trees has a node at `p`, stacking them
/// yields a shape there.
pub proof fn lemma_stacked_shape_found(locals: Seq<Ast>, k: int, p: Seq<IdentifierView>, i: int)
    requires
        0 <= i < k <= locals.len(),
        locals[i].lookup(p) is Some,
    ensures
        stacked_shape(locals, k, p) is Some,
    decreases k,
{
    if i < k - 1 {
        lemma_stacked_shape_found(locals, k - 1, p, i);
    }
}

/// The merged reference tree holds a node wherever some localization does,
/// and only there.
pub proof fn law_reference_tree_has_every_node(ctx: Context, p: Seq<IdentifierView>)
    requires
        ctx.wf(),
    ensures
        ctx.reference_tree.lookup(p) is Some <==> exists|i: int| 0 <= i < ctx.localizations@.len() && (#[trigger] ctx.localizations@[i]).lookup(p) is Some,
{
    let locals = ctx.localizations@;
    let n = locals.len() as int;
    assert(ctx.reference_tree.shape_at(p) == stacked_shape(locals, n, p));
    if ctx.reference_tree.lookup(p) is Some {
        lemma_stacked_shape_source(locals, n, p);
        let i = choose|i: int| 0 <= i < n && (#[trigger] locals[i]).shape_at(p) == stacked_shape(locals, n, p);
        assert(locals[i].lookup(p) is Some);
    }
    if exists|i: int| 0 <= i < n && (#[trigger] locals[i]).lookup(p) is Some {
        let i = choose|i: int| 0 <= i < n && (#[trigger] locals[i]).lookup(p) is Some;
        lemma_stacked_shape_found(locals, n, p, i);
    }
}

/// The shape found after stacking the trees at a path is that of the first
/// tree that has a node there.
proof fn lemma_stacked_shape_earliest(locals: Seq<Ast>, k: int, p: Seq<IdentifierView>, i: int)
    requires
        0 <= i < k <= locals.len(),
        locals[i].shape_at(p) is Some,
        forall|j: int| 0 <= j < i ==> (#[trigger] locals[j]).shape_at(p) is None,
    ensures
        stacked_shape(locals, k, p) == locals[i].shape_at(p),
    decreases k,
{
    if k - 1 > i {
        lemma_stacked_shape_earliest(locals, k - 1, p, i);
    } else {
        lemma_stacked_shape_none(locals, i, p);
    }
}

/// No tree before `k` has a node at `p`: nothing is found there after
/// stacking them.
proof fn lemma_stacked_shape_none(locals: Seq<Ast>, k: int, p: Seq<IdentifierView>)
    requires
        0 <= k <= locals.len(),
        forall|j: int| 0 <= j < k ==> (#[trigger] locals[j]).shape_at(p) is None,
    ensures
        stacked_shape(locals, k, p) is None,
    decreases k,
{
    if k > 0 {
        lemma_stacked_shape_none(locals, k - 1, p);
    }
}

/// The reference tree is the localizations merged into the first, one
/// after the other, in order: at each path it holds the node (its id and
/// kind) of the first localization that has one there.
pub proof fn law_reference_tree_earliest_wins(ctx: Context, p: Seq<IdentifierView>, i: int)
    requires
        ctx.wf(),
        0 <= i < ctx.localizations@.len(),
        ctx.localizations@[i].lookup(p) is Some,
        forall|j: int| 0 <= j < i ==> (#[trigger] ctx.localizations@[j]).lookup(p) is None,
    ensures
        ctx.reference_tree.shape_at(p) == ctx.localizations@[i].shape_at(p),
{
    let locals = ctx.localizations@;
    assert forall|j: int| 0 <= j < i implies (#[trigger] locals[j]).shape_at(p) is None by {
        assert(locals[j].lookup(p) is None);
    }
    lemma_stacked_shape_earliest(locals, locals.len() as int, p, i);
    assert(ctx.reference_tree.shape_at(p) == stacked_shape(locals, locals.len() as int, p));
}

/// Every node of a copyable tree is copyable.
pub proof fn lemma_copyable_below(map: Seq<(NodeId, AstPath)>, locals: Seq<Ast>, node: Ast, q: Seq<IdentifierView>)
    requires
        copyable(map, locals, node),
        node.lookup(q) is Some,
    ensures
        copyable(map, locals, node.lookup(q).unwrap()),
    decreases q.len(),
{
    if q.len() > 0 {
        let kids = node.kids();
        crate::ast::lemma_find_key(kids, q[0]);
        let k = crate::ast::find_key(kids, q[0]).unwrap();
        let c = kids[k].1;
        assert(copyable(map, locals, c));
        lemma_copyable_below(map, locals, c, q.drop_first());
    }
}

/// Where the whole reference tree can be held in `Copy` types, the flag
/// that `is_copy` reads for each of its nodes is set.
pub proof fn law_copyable_tree_flags_set(ctx: Context, q: Seq<IdentifierView>)
    requires
        ctx.wf(),
        copyable(ctx.id_to_path@, ctx.localizations@, ctx.reference_tree),
        ctx.reference_tree.lookup(q) is Some,
    ensures
        match path_index(ctx.relative_path_to_is_copy@, ctx.rel(ctx.reference_tree.lookup(q).unwrap().id)) {
            Some(i) => ctx.relative_path_to_is_copy@[i].1,
            None => false,
        },
{
    let map = ctx.id_to_path@;
    let locals = ctx.localizations@;
    let out = ctx.relative_path_to_is_copy@;
    let t = ctx.reference_tree;
    let n = t.lookup(q).unwrap();
    reveal(copy_entries_complete);
    reveal(copy_entries_sound);
    assert(copy_entries_complete(map, locals, t, out, 0));
    let j = choose|j: int| 0 <= j < out.len()
        && (#[trigger] out[j]).0@ == rel_path(map, t.lookup(q).unwrap().id)
        && out[j].1 == copyable(map, locals, t.lookup(q).unwrap());
    lemma_path_index(out, rel_path(map, n.id));
    let i = path_index(out, rel_path(map, n.id)).unwrap();
    let q2 = choose|q2: Seq<IdentifierView>| #![trigger t.lookup(q2)] t.lookup(q2) is Some
        && (#[trigger] out[i]).0@ == rel_path(map, t.lookup(q2).unwrap().id)
        && out[i].1 == copyable(map, locals, t.lookup(q2).unwrap());
    lemma_copyable_below(map, locals, t, q2);
}

} // verus!
