use vstd::prelude::*;

use crate::ast::Ast;
use crate::identifier::{identifier_display, IdentifierView, Path as AstPath};
use crate::node_id::NodeId;
use crate::rust::generator::path::{gen_mods, gen_ty, Path};
use crate::rust::rust_generator::context::{
    find_recorded, id_paths_of, lemma_id_paths_empty, lemma_id_paths_extend, lemma_id_paths_nonempty, lemma_recorded_index,
    recorded_index,
};
use crate::rust::shared::name::{pascal_text, NameSnakeCase};

verus! {

/// The localizations of a component as the generator first read them: the
/// children of one tree, each under its context's identifier, with the
/// paths of their nodes.
pub struct Context {
    pub root_name: NameSnakeCase,
    pub context_key: Path,
    pub localizations: Vec<Ast>,
    pub id_to_path: Vec<(NodeId, AstPath)>,
}

impl Context {
    /// The recorded paths are those of the localizations' nodes.
    pub open spec fn wf(&self) -> bool {
        id_paths_of(self.id_to_path@, self.localizations@)
    }

    /// The node `id` has a recorded path.
    pub open spec fn has_id(&self, id: NodeId) -> bool {
        recorded_index(self.id_to_path@, id) is Some
    }

    /// The path of the node `id` without the localization's identifier.
    pub open spec fn rel(&self, id: NodeId) -> Seq<IdentifierView> {
        self.id_to_path@[recorded_index(self.id_to_path@, id).unwrap()].1@.drop_first()
    }

    /// Reads the localizations from the children of `localization_tree`,
    /// each taken from its parent, and records the paths of their nodes.
    pub fn new(localization_tree: Ast, root_name: NameSnakeCase, context_key: Path) -> (r: Self)
        requires
            localization_tree.wf(),
            localization_tree.value is Composite,
        ensures
            r.wf(),
            r.root_name == root_name,
            r.context_key == context_key,
            r.localizations@.len() == localization_tree.kids().len(),
            forall|i: int| 0 <= i < r.localizations@.len() ==> #[trigger] r.localizations@[i]
                == (Ast { parent: None, ..localization_tree.kids()[i].1 }),
    {
        let ghost kids = localization_tree.kids();
        assert forall|i: int| 0 <= i < kids.len() implies (#[trigger] kids[i]).1.wf() by {}
        let children = localization_tree.children_into().unwrap();
        let mut localizations: Vec<Ast> = Vec::new();
        let mut id_to_path: Vec<(NodeId, AstPath)> = Vec::new();
        proof { lemma_id_paths_empty(id_to_path@, localizations@); }
        let mut rest = children;
        let ghost all = rest@;
        while rest.len() > 0
            invariant
                all.len() == kids.len(),
                forall|i: int| 0 <= i < all.len() ==> #[trigger] all[i] == kids[i].1,
                forall|i: int| 0 <= i < kids.len() ==> (#[trigger] kids[i]).1.wf(),
                localizations@.len() + rest@.len() == all.len(),
                rest@ == all.subrange(localizations@.len() as int, all.len() as int),
                forall|i: int| 0 <= i < localizations@.len() ==> #[trigger] localizations@[i] == (Ast { parent: None, ..all[i] }),
                id_paths_of(id_to_path@, localizations@),
            decreases rest@.len(),
        {
            let ghost k = localizations@.len() as int;
            let mut local = rest.remove(0);
            assert(local == all[k]);
            local.detach_from_parent();
            assert(local == (Ast { parent: None, ..all[k] }));
            proof { crate::ast::lemma_wf_by_value(local, all[k]); }
            let mut m = local.id_to_path_map();
            let ghost before = id_to_path@;
            let ghost mv = m@;
            let ghost locals_before = localizations@;
            localizations.push(local);
            id_to_path.append(&mut m);
            proof {
                assert(localizations@.subrange(0, k) =~= locals_before);
                assert(localizations@.subrange(0, k + 1) =~= localizations@);
                lemma_id_paths_extend(before, mv, localizations@, k);
            }
            assert(rest@ =~= all.subrange(localizations@.len() as int, all.len() as int));
        }
        Context { root_name, context_key, localizations, id_to_path }
    }

    /// The generated path of the node `node_id` from the component's root
    /// module; a node at the top of its localization is the root type.
    pub fn relative_path(&self, node_id: &NodeId) -> (r: Path)
        requires
            self.wf(),
            self.has_id(*node_id),
        ensures
            r.mods_v() == gen_mods(self.rel(*node_id)),
            r.ty_v() == if gen_mods(self.rel(*node_id)).len() == 0 {
                Some(pascal_text(self.root_name@))
            } else {
                gen_ty(self.rel(*node_id))
            },
    {
        proof {
            lemma_recorded_index(self.id_to_path@, *node_id);
            lemma_id_paths_nonempty(self.id_to_path@, self.localizations@);
        }
        let idx = find_recorded(&self.id_to_path, *node_id).unwrap();
        let full = self.id_to_path[idx].1.clone();
        let rel = full.remove(0).unwrap();
        assert(rel@ =~= self.rel(*node_id));
        let path = Path::from_ast_path(rel);
        if path.has_no_mods() {
            path.set_ty(self.root_name.to_pascal_case())
        } else {
            path
        }
    }

    /// The localizations, in order.
    pub fn iter(&self) -> (r: &[Ast])
        ensures
            r@ == self.localizations@,
    {
        self.localizations.as_slice()
    }

    /// The first localization.
    pub fn main(&self) -> (r: &Ast)
        requires
            self.localizations@.len() >= 1,
        ensures
            *r == self.localizations@[0],
    {
        &self.localizations[0]
    }

    /// The path of the type that holds the selected context.
    pub fn context_key(&self) -> (r: &Path)
        ensures
            *r == self.context_key,
    {
        &self.context_key
    }

    /// The identifier of the localization of the node `node_id`, as text.
    pub fn context_variant(&self, node_id: &NodeId) -> (r: String)
        requires
            self.wf(),
            self.has_id(*node_id),
        ensures
            r@ == identifier_display(self.id_to_path@[recorded_index(self.id_to_path@, *node_id).unwrap()].1@[0]),
    {
        proof {
            lemma_recorded_index(self.id_to_path@, *node_id);
            lemma_id_paths_nonempty(self.id_to_path@, self.localizations@);
        }
        let idx = find_recorded(&self.id_to_path, *node_id).unwrap();
        self.id_to_path[idx].1.root().to_text()
    }
}

} // verus!
