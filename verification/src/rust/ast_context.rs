use vstd::prelude::*;

use crate::ast::{find_index, find_key, Ast};
use crate::case::lowercase;
use crate::identifier::{is_permutation, is_sorted_by, sorting_order, Identifier, IdentifierView, Path as AstPath};
use crate::node_id::NodeId;
use crate::node_value::{CompositeValue, FloatValue, IntegerValue, LiteralValue, NodeValue, StringValue};
use crate::rust::name::{element_text, NameSnakeCase};
use crate::rust::rust_generator::context::{
    find_recorded, id_paths_of, lemma_id_paths_empty, lemma_id_paths_extend, lemma_id_paths_nonempty, lemma_path_recorded,
    lemma_recorded_index, lemma_recorded_path_of, recorded_index,
};
use crate::rust::rust_generator::value::keys_of;
use crate::rust::shared::name::pascal_text;
use crate::rust::initialization::{FieldValue, Initialization, RustValue, VariableType};
use crate::rust::module::Module;
use crate::rust::strct::{Field, Struct, StructVariation};
use crate::rust::strct::RustType;

verus! {

/// The localizations of a component as the first form of the generator read
/// them, with the paths of their nodes.
pub struct AstContext {
    pub contexts: Vec<Ast>,
    pub id_to_path: Vec<(NodeId, AstPath)>,
}

/// The name of a module or field made from the identifier `id`.
pub open spec fn legacy_name(id: IdentifierView) -> Seq<char> {
    lowercase(match id {
        IdentifierView::Field(name) => name,
        IdentifierView::TupleIndex(i) => seq!['e', 'l', 'e', 'm'] + crate::text::decimal(i as nat),
        IdentifierView::ArrayIndex(i) => seq!['e', 'l', 'e', 'm'] + crate::text::decimal(i as nat),
    })
}

/// The literals that the first form of the generator can type: no
/// template, no expression and no `usize`.
pub open spec fn typable_literal(l: LiteralValue) -> bool {
    match l {
        LiteralValue::String(StringValue::Template(_)) => false,
        LiteralValue::Cast { .. } => false,
        LiteralValue::Integer(IntegerValue::Usize(_)) => false,
        _ => true,
    }
}

impl AstContext {
    /// The recorded paths are those of the localizations' nodes.
    pub open spec fn wf(&self) -> bool {
        id_paths_of(self.id_to_path@, self.contexts@)
    }

    /// The node `id` has a recorded path.
    pub open spec fn has_id(&self, id: NodeId) -> bool {
        recorded_index(self.id_to_path@, id) is Some
    }

    /// The path of the node `id` without the localization's identifier.
    pub open spec fn rel(&self, id: NodeId) -> Seq<IdentifierView> {
        self.id_to_path@[recorded_index(self.id_to_path@, id).unwrap()].1@.drop_first()
    }

    /// The identifier of the localization of the node `id`.
    pub open spec fn context_of(&self, id: NodeId) -> IdentifierView {
        self.id_to_path@[recorded_index(self.id_to_path@, id).unwrap()].1@[0]
    }

    /// Every localization has a list of `amount` elements at `rel`.
    pub open spec fn same_amount(&self, rel: Seq<IdentifierView>, amount: usize) -> bool {
        forall|i: int| 0 <= i < self.contexts@.len() ==> match (#[trigger] self.contexts@[i]).lookup(rel) {
            Some(n) => n.value matches NodeValue::Composite { value: CompositeValue::List { amount: a }, .. } && a == amount,
            None => false,
        }
    }

    /// Every node of the tree `node` has a recorded path, every literal can
    /// be typed and every list has an element `0`.
    pub open spec fn nodes_typable(&self, node: Ast) -> bool {
        forall|q: Seq<IdentifierView>| #[trigger] node.lookup(q) is Some ==> {
            let n = node.lookup(q).unwrap();
            &&& self.has_id(n.id)
            &&& match n.value {
                NodeValue::Literal(l) => typable_literal(l),
                NodeValue::Composite { children, value: CompositeValue::List { .. } } => find_key(children@, IdentifierView::ArrayIndex(0)) is Some,
                _ => true,
            }
        }
    }

    /// `r` is the type of `node`: a struct named after the node in the
    /// modules of its path; a tuple of the types of its elements in the
    /// order of their keys; a list of the type of its element `0`, with
    /// its length where every localization has a list of that length
    /// there; a literal's own type.
    pub open spec fn is_legacy_type_of(&self, r: RustType, node: Ast) -> bool
        decreases node,
    {
        match node.value {
            NodeValue::Composite { children, value } => {
                let kids = children@;
                match value {
                    CompositeValue::Struct => r matches RustType::Struct { mod_names, name }
                        && mod_names@.len() == self.rel(node.id).len()
                        && (forall|i: int| 0 <= i < mod_names@.len() ==> (#[trigger] mod_names@[i])@ == legacy_name(self.rel(node.id)[i]))
                        && name@ == pascal_text(legacy_name(node.identifier@)),
                    CompositeValue::Tuple => r matches RustType::Tuple(ts) && ts@.len() == kids.len()
                        && exists|order: Seq<int>| #![trigger is_sorted_by(keys_of(kids), order)]
                            is_permutation(order, kids.len() as int) && is_sorted_by(keys_of(kids), order)
                            && forall|j: int| 0 <= j < kids.len() ==> (0 <= order[j] < kids.len()
                                ==> self.is_legacy_type_of(#[trigger] ts@[j], kids[order[j]].1)),
                    CompositeValue::List { amount } => r matches RustType::List { ty, amount: a }
                        && a == (if self.same_amount(self.rel(node.id), amount) { Some(amount) } else { None::<usize> })
                        && match find_key(kids, IdentifierView::ArrayIndex(0)) {
                            Some(k) => 0 <= k < kids.len() ==> self.is_legacy_type_of(*ty, kids[k].1),
                            None => false,
                        },
                }
            },
            NodeValue::Literal(l) => match l {
                LiteralValue::String(_) => r is String,
                LiteralValue::Char(_) => r is Char,
                LiteralValue::Float(FloatValue::F64(_)) => r matches RustType::Float { bits } && bits == 64,
                LiteralValue::Float(FloatValue::F32(_)) => r matches RustType::Float { bits } && bits == 32,
                LiteralValue::Integer(i) => match crate::rust::rust_generator::ty::integer_kind(i) {
                    Some((u, b)) => r matches RustType::Integer { unsigned, bits } && unsigned == u && bits == b,
                    None => false,
                },
                LiteralValue::Bool(_) => r is Bool,
                LiteralValue::Cast { .. } => false,
            },
        }
    }
}

impl AstContext {
    /// Reads the localizations from the children of `ast_with_contexts`,
    /// each taken from its parent, and records the paths of their nodes.
    pub fn from_tree(ast_with_contexts: Ast) -> (r: Self)
        requires
            ast_with_contexts.wf(),
            ast_with_contexts.value is Composite,
        ensures
            r.wf(),
            r.contexts@.len() == ast_with_contexts.kids().len(),
            forall|i: int| 0 <= i < r.contexts@.len() ==> #[trigger] r.contexts@[i]
                == (Ast { parent: None, ..ast_with_contexts.kids()[i].1 }),
    {
        let ghost kids = ast_with_contexts.kids();
        assert forall|i: int| 0 <= i < kids.len() implies (#[trigger] kids[i]).1.wf() by {}
        let children = ast_with_contexts.children_into().unwrap();
        let mut contexts: Vec<Ast> = Vec::new();
        let mut id_to_path: Vec<(NodeId, AstPath)> = Vec::new();
        proof { lemma_id_paths_empty(id_to_path@, contexts@); }
        let mut rest = children;
        let ghost all = rest@;
        while rest.len() > 0
            invariant
                all.len() == kids.len(),
                forall|i: int| 0 <= i < all.len() ==> #[trigger] all[i] == kids[i].1,
                forall|i: int| 0 <= i < kids.len() ==> (#[trigger] kids[i]).1.wf(),
                contexts@.len() + rest@.len() == all.len(),
                rest@ == all.subrange(contexts@.len() as int, all.len() as int),
                forall|i: int| 0 <= i < contexts@.len() ==> #[trigger] contexts@[i] == (Ast { parent: None, ..all[i] }),
                id_paths_of(id_to_path@, contexts@),
            decreases rest@.len(),
        {
            let ghost k = contexts@.len() as int;
            let mut local = rest.remove(0);
            assert(local == all[k]);
            local.detach_from_parent();
            assert(local == (Ast { parent: None, ..all[k] }));
            proof { crate::ast::lemma_wf_by_value(local, all[k]); }
            let mut m = local.id_to_path_map();
            let ghost before = id_to_path@;
            let ghost mv = m@;
            let ghost locals_before = contexts@;
            contexts.push(local);
            id_to_path.append(&mut m);
            proof {
                assert(contexts@.subrange(0, k) =~= locals_before);
                assert(contexts@.subrange(0, k + 1) =~= contexts@);
                lemma_id_paths_extend(before, mv, contexts@, k);
            }
            assert(rest@ =~= all.subrange(contexts@.len() as int, all.len() as int));
        }
        AstContext { contexts, id_to_path }
    }

    /// The path of the node `id` without the localization's identifier.
    pub fn relative_path(&self, id: &NodeId) -> (r: AstPath)
        requires
            self.wf(),
            self.has_id(*id),
        ensures
            r@ == self.rel(*id),
    {
        proof {
            lemma_recorded_index(self.id_to_path@, *id);
            lemma_id_paths_nonempty(self.id_to_path@, self.contexts@);
        }
        let idx = find_recorded(&self.id_to_path, *id).unwrap();
        let r = self.id_to_path[idx].1.clone().remove(0).unwrap();
        assert(r@ =~= self.rel(*id));
        r
    }

    /// The identifier of the localization of the node `id`.
    pub fn context_name(&self, id: &NodeId) -> (r: Identifier)
        requires
            self.wf(),
            self.has_id(*id),
        ensures
            r@ == self.context_of(*id),
    {
        proof {
            lemma_recorded_index(self.id_to_path@, *id);
            lemma_id_paths_nonempty(self.id_to_path@, self.contexts@);
        }
        let idx = find_recorded(&self.id_to_path, *id).unwrap();
        self.id_to_path[idx].1.root()
    }

    /// Whether every localization has a list of `amount` elements at
    /// `path`.
    fn all_same_amount(&self, path: &AstPath, amount: usize) -> (r: bool)
        ensures
            r == self.same_amount(path@, amount),
    {
        let mut i: usize = 0;
        while i < self.contexts.len()
            invariant
                i <= self.contexts@.len(),
                forall|k: int| 0 <= k < i ==> match (#[trigger] self.contexts@[k]).lookup(path@) {
                    Some(n) => n.value matches NodeValue::Composite { value: CompositeValue::List { amount: a }, .. } && a == amount,
                    None => false,
                },
            decreases self.contexts@.len() - i,
        {
            let ok = match self.contexts[i].by_path(path) {
                Some(n) => match &n.value {
                    NodeValue::Composite { value: CompositeValue::List { amount: a }, .. } => *a == amount,
                    _ => false,
                },
                None => false,
            };
            if !ok {
                return false;
            }
            i = i + 1;
        }
        true
    }

    /// The names of the modules of the path `path`.
    fn module_names(path: &AstPath) -> (r: Vec<NameSnakeCase>)
        ensures
            r@.len() == path@.len(),
            forall|i: int| 0 <= i < r@.len() ==> (#[trigger] r@[i])@ == legacy_name(path@[i]),
    {
        let ids = path.iter();
        let mut r: Vec<NameSnakeCase> = Vec::new();
        let mut i: usize = 0;
        while i < ids.len()
            invariant
                ids@ == path.0@,
                i <= ids@.len(),
                r@.len() == i,
                forall|k: int| 0 <= k < i ==> (#[trigger] r@[k])@ == legacy_name(path@[k]),
            decreases ids@.len() - i,
        {
            r.push(NameSnakeCase::from_identifier(ids[i].clone()));
            i = i + 1;
        }
        r
    }
}

/// A child of a tree whose nodes are typable is well formed and typable.
pub proof fn lemma_child_typable(ctx: AstContext, node: Ast, k: int)
    requires
        node.wf(),
        ctx.nodes_typable(node),
        node.value is Composite,
        0 <= k < node.value->children@.len(),
    ensures
        node.value->children@[k].1.wf(),
        ctx.nodes_typable(node.value->children@[k].1),
{
    let kids = node.value->children@;
    let kid = kids[k];
    crate::ast::lemma_find_own_key(kids, k);
    let key = seq![kid.0@];
    assert forall|q: Seq<IdentifierView>| #[trigger] kid.1.lookup(q) is Some implies {
        let n = kid.1.lookup(q).unwrap();
        &&& ctx.has_id(n.id)
        &&& match n.value {
            NodeValue::Literal(l) => typable_literal(l),
            NodeValue::Composite { children, value: CompositeValue::List { .. } } => find_key(children@, IdentifierView::ArrayIndex(0)) is Some,
            _ => true,
        }
    } by {
        let fq = key + q;
        assert(fq[0] == kid.0@);
        assert(fq.drop_first() =~= q);
        assert(node.lookup(fq) == kid.1.lookup(q));
    }
}

impl AstContext {
    /// The type of the generated value of `ast` (see `is_legacy_type_of`).
    pub fn to_rust_type(&self, ast: &Ast) -> (r: RustType)
        requires
            self.wf(),
            ast.wf(),
            self.nodes_typable(*ast),
        ensures
            self.is_legacy_type_of(r, *ast),
        decreases ast,
    {
        let ghost empty = Seq::<IdentifierView>::empty();
        assert(ast.lookup(empty) == Some(*ast));
        match &ast.value {
            NodeValue::Composite { children, value } => match value {
                CompositeValue::Struct => {
                    let rel = self.relative_path(&ast.id);
                    let mod_names = Self::module_names(&rel);
                    let name = NameSnakeCase::from_identifier(ast.identifier.clone()).to_pascal_case();
                    RustType::Struct { mod_names, name }
                },
                CompositeValue::Tuple => {
                    let ghost kids = children@;
                    let n = children.len();
                    let mut keys: Vec<Identifier> = Vec::new();
                    let mut i: usize = 0;
                    while i < n
                        invariant
                            n == kids.len(),
                            kids == children@,
                            i <= n,
                            keys@.len() == i,
                            forall|m: int| 0 <= m < i ==> #[trigger] keys@[m] == kids[m].0,
                        decreases n - i,
                    {
                        keys.push(children[i].0.clone());
                        i = i + 1;
                    }
                    assert(keys@.map_values(|k: Identifier| k@) =~= keys_of(kids));
                    let order = sorting_order(&keys);
                    let ghost ord = order@.map_values(|i: usize| i as int);
                    let mut types: Vec<RustType> = Vec::new();
                    let mut j: usize = 0;
                    while j < n
                        invariant
                            self.wf(),
                            ast.wf(),
                            self.nodes_typable(*ast),
                            ast.value == (NodeValue::Composite { children: *children, value: *value }),
                            n == kids.len(),
                            kids == children@,
                            order@.len() == n,
                            ord == order@.map_values(|i: usize| i as int),
                            is_permutation(ord, n as int),
                            j <= n,
                            types@.len() == j,
                            forall|m: int| 0 <= m < j ==> self.is_legacy_type_of(#[trigger] types@[m], kids[ord[m]].1),
                        decreases n - j,
                    {
                        let k = order[j];
                        assert(ord[j as int] == k as int);
                        proof { lemma_child_typable(*self, *ast, k as int); }
                        assert(decreases_to!(ast => ast.value));
                        assert(decreases_to!(ast.value => ast.value->children));
                        assert(decreases_to!(*children => children@));
                        assert(decreases_to!(children@ => children@[k as int]));
                        assert(decreases_to!(children@[k as int] => children@[k as int].1));
                        types.push(self.to_rust_type(&children[k].1));
                        j = j + 1;
                    }
                    assert(is_sorted_by(keys_of(kids), ord));
                    RustType::Tuple(types)
                },
                CompositeValue::List { amount: list_size } => {
                    let path = self.relative_path(&ast.id);
                    let amount_the_same = self.all_same_amount(&path, *list_size);
                    proof { crate::ast::lemma_find_key(children@, IdentifierView::ArrayIndex(0)); }
                    let k = find_index(children, &Identifier::ArrayIndex(0)).unwrap();
                    proof { lemma_child_typable(*self, *ast, k as int); }
                    assert(decreases_to!(ast => ast.value));
                    assert(decreases_to!(ast.value => ast.value->children));
                    assert(decreases_to!(*children => children@));
                    assert(decreases_to!(children@ => children@[k as int]));
                    assert(decreases_to!(children@[k as int] => children@[k as int].1));
                    let ty = self.to_rust_type(&children[k].1);
                    let amount = if amount_the_same { Some(*list_size) } else { None };
                    RustType::List { ty: Box::new(ty), amount }
                },
            },
            NodeValue::Literal(literal_value) => match literal_value {
                LiteralValue::String(_) => RustType::String,
                LiteralValue::Char(_) => RustType::Char,
                LiteralValue::Float(FloatValue::F64(_)) => RustType::Float { bits: 64 },
                LiteralValue::Float(FloatValue::F32(_)) => RustType::Float { bits: 32 },
                LiteralValue::Integer(integer_value) => match integer_value {
                    IntegerValue::I128(_) => RustType::Integer { unsigned: false, bits: 128 },
                    IntegerValue::U128(_) => RustType::Integer { unsigned: true, bits: 128 },
                    IntegerValue::I64(_) => RustType::Integer { unsigned: false, bits: 64 },
                    IntegerValue::U64(_) => RustType::Integer { unsigned: true, bits: 64 },
                    IntegerValue::I32(_) => RustType::Integer { unsigned: false, bits: 32 },
                    IntegerValue::U32(_) => RustType::Integer { unsigned: true, bits: 32 },
                    IntegerValue::I16(_) => RustType::Integer { unsigned: false, bits: 16 },
                    IntegerValue::U16(_) => RustType::Integer { unsigned: true, bits: 16 },
                    IntegerValue::I8(_) => RustType::Integer { unsigned: false, bits: 8 },
                    IntegerValue::U8(_) => RustType::Integer { unsigned: true, bits: 8 },
                    // excluded by `nodes_typable`
                    IntegerValue::Usize(_) => RustType::Bool,
                },
                LiteralValue::Bool(_) => RustType::Bool,
                // excluded by `nodes_typable`
                LiteralValue::Cast { .. } => RustType::Bool,
            },
        }
    }
}

impl AstContext {
    /// `r` is the value of `node`: a struct named after the node with a
    /// field per child in the order of their keys; a tuple of its elements
    /// in that order; a list repeating its first element where every
    /// localization has a list of its length there, else a list of its
    /// elements; a literal's own value.
    pub open spec fn is_legacy_value_of(&self, r: RustValue, node: Ast) -> bool
        decreases node,
    {
        match node.value {
            NodeValue::Composite { children, value } => {
                let kids = children@;
                exists|order: Seq<int>| #![trigger is_sorted_by(keys_of(kids), order)]
                    is_permutation(order, kids.len() as int) && is_sorted_by(keys_of(kids), order) && match value {
                    CompositeValue::Struct => (r matches RustValue::Struct { mod_names, name, fields }
                        && mod_names@.len() == self.rel(node.id).len()
                        && (forall|i: int| 0 <= i < mod_names@.len() ==> (#[trigger] mod_names@[i])@ == legacy_name(self.rel(node.id)[i]))
                        && name@ == pascal_text(legacy_name(node.identifier@))
                        && fields@.len() == kids.len()
                        && forall|j: int| 0 <= j < kids.len() ==> (0 <= order[j] < kids.len()
                            ==> (#[trigger] fields@[j]).name@ == legacy_name(kids[order[j]].0@)
                                && self.is_legacy_value_of(fields@[j].value, kids[order[j]].1))),
                    CompositeValue::Tuple => (r matches RustValue::Tuple(vs) && vs@.len() == kids.len()
                        && forall|j: int| 0 <= j < kids.len() ==> (0 <= order[j] < kids.len()
                            ==> self.is_legacy_value_of(#[trigger] vs@[j], kids[order[j]].1))),
                    CompositeValue::List { amount } => if self.same_amount(self.rel(node.id), amount) {
                        (r matches RustValue::ListRepeated { value: b, amount: a } && a == amount && kids.len() > 0
                            && (0 <= order[0] < kids.len() ==> self.is_legacy_value_of(*b, kids[order[0]].1)))
                    } else {
                        (r matches RustValue::List(vs) && vs@.len() == kids.len()
                            && forall|j: int| 0 <= j < kids.len() ==> (0 <= order[j] < kids.len()
                                ==> self.is_legacy_value_of(#[trigger] vs@[j], kids[order[j]].1)))
                    },
                }
            },
            NodeValue::Literal(l) => match l {
                LiteralValue::String(StringValue::Literal(s)) => r matches RustValue::String(t) && t@ == s@,
                LiteralValue::Char(c) => r matches RustValue::Char(d) && d == c,
                LiteralValue::Float(f) => r matches RustValue::Float(g) && g == f,
                LiteralValue::Integer(i) => r matches RustValue::Integer(j) && j == i,
                LiteralValue::Bool(b) => r matches RustValue::Bool(c) && c == b,
                _ => false,
            },
        }
    }

    /// The value of `ast` (see `is_legacy_value_of`).
    #[verifier::rlimit(40)]
    pub fn to_rust_value(&self, ast: &Ast) -> (r: RustValue)
        requires
            self.wf(),
            ast.wf(),
            self.nodes_typable(*ast),
        ensures
            self.is_legacy_value_of(r, *ast),
        decreases ast,
    {
        let ghost empty = Seq::<IdentifierView>::empty();
        assert(ast.lookup(empty) == Some(*ast));
        match &ast.value {
            NodeValue::Composite { children, value } => {
                let ghost kids = children@;
                let n = children.len();
                let mut keys: Vec<Identifier> = Vec::new();
                let mut i: usize = 0;
                while i < n
                    invariant
                        n == kids.len(),
                        kids == children@,
                        i <= n,
                        keys@.len() == i,
                        forall|m: int| 0 <= m < i ==> #[trigger] keys@[m] == kids[m].0,
                    decreases n - i,
                {
                    keys.push(children[i].0.clone());
                    i = i + 1;
                }
                assert(keys@.map_values(|k: Identifier| k@) =~= keys_of(kids));
                let order = sorting_order(&keys);
                let ghost ord = order@.map_values(|i: usize| i as int);
                let mut names: Vec<NameSnakeCase> = Vec::new();
                let mut values: Vec<RustValue> = Vec::new();
                let mut j: usize = 0;
                while j < n
                    invariant
                        self.wf(),
                        ast.wf(),
                        self.nodes_typable(*ast),
                        ast.value == (NodeValue::Composite { children: *children, value: *value }),
                        n == kids.len(),
                        kids == children@,
                        order@.len() == n,
                        ord == order@.map_values(|i: usize| i as int),
                        is_permutation(ord, n as int),
                        j <= n,
                        values@.len() == j,
                        names@.len() == j,
                        forall|m: int| 0 <= m < j ==> self.is_legacy_value_of(#[trigger] values@[m], kids[ord[m]].1),
                        forall|m: int| 0 <= m < j ==> (#[trigger] names@[m])@ == legacy_name(kids[ord[m]].0@),
                    decreases n - j,
                {
                    let k = order[j];
                    assert(ord[j as int] == k as int);
                    proof { lemma_child_typable(*self, *ast, k as int); }
                    assert(decreases_to!(ast => ast.value));
                    assert(decreases_to!(ast.value => ast.value->children));
                    assert(decreases_to!(*children => children@));
                    assert(decreases_to!(children@ => children@[k as int]));
                    assert(decreases_to!(children@[k as int] => children@[k as int].1));
                    values.push(self.to_rust_value(&children[k].1));
                    names.push(NameSnakeCase::from_identifier(children[k].0.clone()));
                    j = j + 1;
                }
                assert(is_sorted_by(keys_of(kids), ord));
                match value {
                    CompositeValue::Struct => {
                        let rel = self.relative_path(&ast.id);
                        let mod_names = Self::module_names(&rel);
                        let name = NameSnakeCase::from_identifier(ast.identifier.clone()).to_pascal_case();
                        let fields = Self::field_values(names, values, Ghost(*self), Ghost(kids), Ghost(ord));
                        RustValue::Struct { mod_names, name, fields }
                    },
                    CompositeValue::Tuple => RustValue::Tuple(values),
                    CompositeValue::List { amount: list_size } => {
                        let path = self.relative_path(&ast.id);
                        if self.all_same_amount(&path, *list_size) {
                            proof { crate::ast::lemma_find_key(children@, IdentifierView::ArrayIndex(0)); }
                            let mut values = values;
                            let first = values.remove(0);
                            RustValue::ListRepeated { value: Box::new(first), amount: *list_size }
                        } else {
                            RustValue::List(values)
                        }
                    },
                }
            },
            NodeValue::Literal(literal_value) => match literal_value {
                LiteralValue::String(StringValue::Literal(s)) => RustValue::String(s.clone()),
                LiteralValue::Char(c) => RustValue::Char(*c),
                LiteralValue::Float(f) => RustValue::Float(f.clone()),
                LiteralValue::Integer(i) => RustValue::Integer(i.clone()),
                LiteralValue::Bool(b) => RustValue::Bool(*b),
                // excluded by `nodes_typable`
                _ => RustValue::Bool(false),
            },
        }
    }

    /// The fields of a struct value: each name with its value, in order.
    fn field_values(
        names: Vec<NameSnakeCase>,
        values: Vec<RustValue>,
        Ghost(ctx): Ghost<AstContext>,
        Ghost(kids): Ghost<Seq<(Identifier, Ast)>>,
        Ghost(ord): Ghost<Seq<int>>,
    ) -> (r: Vec<FieldValue>)
        requires
            names@.len() == kids.len(),
            values@.len() == kids.len(),
            ord.len() == kids.len(),
            forall|m: int| 0 <= m < kids.len() ==> ctx.is_legacy_value_of(#[trigger] values@[m], kids[ord[m]].1),
            forall|m: int| 0 <= m < kids.len() ==> (#[trigger] names@[m])@ == legacy_name(kids[ord[m]].0@),
        ensures
            r@.len() == kids.len(),
            forall|j: int| 0 <= j < kids.len() ==> (#[trigger] r@[j]).name@ == legacy_name(kids[ord[j]].0@)
                && ctx.is_legacy_value_of(r@[j].value, kids[ord[j]].1),
    {
        let ghost all_n = names@;
        let ghost all_v = values@;
        let mut names = names;
        let mut values = values;
        let mut r: Vec<FieldValue> = Vec::new();
        while values.len() > 0
            invariant
                all_n.len() == kids.len(),
                all_v.len() == kids.len(),
                forall|m: int| 0 <= m < kids.len() ==> ctx.is_legacy_value_of(#[trigger] all_v[m], kids[ord[m]].1),
                forall|m: int| 0 <= m < kids.len() ==> (#[trigger] all_n[m])@ == legacy_name(kids[ord[m]].0@),
                r@.len() + values@.len() == kids.len(),
                values@ == all_v.subrange(r@.len() as int, kids.len() as int),
                names@ == all_n.subrange(r@.len() as int, kids.len() as int),
                forall|j: int| 0 <= j < r@.len() ==> (#[trigger] r@[j]).name@ == legacy_name(kids[ord[j]].0@)
                    && ctx.is_legacy_value_of(r@[j].value, kids[ord[j]].1),
            decreases values@.len(),
        {
            let ghost m = r@.len() as int;
            let v = values.remove(0);
            let n = names.remove(0);
            assert(v == all_v[m]);
            assert(n == all_n[m]);
            let ghost before = r@;
            r.push(FieldValue { name: n, value: v });
            assert(values@ =~= all_v.subrange(r@.len() as int, kids.len() as int));
            assert(names@ =~= all_n.subrange(r@.len() as int, kids.len() as int));
            assert forall|j: int| 0 <= j < r@.len() implies (#[trigger] r@[j]).name@ == legacy_name(kids[ord[j]].0@)
                && ctx.is_legacy_value_of(r@[j].value, kids[ord[j]].1) by {
                if j < m {
                    assert(r@[j] == before[j]);
                }
            }
        }
        r
    }
}

/// The indices below `n` of the composite nodes among `kids`, in order.
pub open spec fn composite_upto(kids: Seq<(Identifier, Ast)>, n: int) -> Seq<int>
    decreases n,
{
    if n <= 0 {
        Seq::empty()
    } else {
        let prev = composite_upto(kids, n - 1);
        if kids[n - 1].1.value is Composite {
            prev.push(n - 1)
        } else {
            prev
        }
    }
}

impl AstContext {
    /// `s` is the struct of `node`: named after it, with a field per child
    /// (in the order of the children) for a struct node, and none else.
    pub open spec fn is_struct_of(&self, s: Struct, node: Ast) -> bool {
        &&& s.name@ == pascal_text(legacy_name(node.identifier@))
        &&& match node.value {
            NodeValue::Composite { children, value: CompositeValue::Struct } => {
                &&& s.fields@.len() == children@.len()
                &&& forall|i: int| 0 <= i < children@.len() ==> (#[trigger] s.fields@[i]).name@ == legacy_name(children@[i].1.identifier@)
                    && self.is_legacy_type_of(s.fields@[i].ty, children@[i].1)
            },
            _ => s.fields@.len() == 0,
        }
    }

    /// `m` holds what the module of `node` holds, apart from declarations:
    /// its name, its struct, and a module per composite child, in the order
    /// of the children.
    pub open spec fn is_module_core_of(&self, m: Module, node: Ast) -> bool
        decreases node,
    {
        &&& m.name@ == legacy_name(node.identifier@)
        &&& m.strcts@.len() == 1
        &&& (m.strcts@[0] matches StructVariation::Struct(s) && self.is_struct_of(s, node))
        &&& match node.value {
            NodeValue::Composite { children, .. } => {
                let c = composite_upto(children@, children@.len() as int);
                &&& m.modules@.len() == c.len()
                &&& forall|i: int| 0 <= i < c.len() ==> (0 <= c[i] < children@.len()
                    ==> (#[trigger] m.modules@[i]).initializations@.len() == 0 && self.is_module_core_of(m.modules@[i], children@[c[i]].1))
            },
            NodeValue::Literal(_) => m.modules@.len() == 0,
        }
    }

    /// `init` declares the value of `node` as a constant, named after the
    /// node and its localization.
    pub open spec fn is_initialization_of(&self, init: Initialization, node: Ast) -> bool {
        &&& init.var_ty == VariableType::Const
        &&& init.name@ == lowercase(legacy_name(node.identifier@) + seq!['_'] + legacy_name(self.context_of(node.id)))
        &&& self.is_legacy_type_of(init.ty, node)
        &&& self.is_legacy_value_of(init.value, node)
    }

    /// `ms` are the modules of the composite nodes among the first `n` of
    /// `children`, in order.
    pub open spec fn modules_ok(&self, ms: Seq<Module>, children: Seq<(Identifier, Ast)>, n: int) -> bool {
        let c = composite_upto(children, n);
        &&& ms.len() == c.len()
        &&& forall|k: int| 0 <= k < ms.len() ==> 0 <= #[trigger] c[k] < children.len()
            && ms[k].initializations@.len() == 0 && self.is_module_core_of(ms[k], children[c[k]].1)
    }

    /// The field of the struct for `ast`.
    pub fn to_field(&self, ast: &Ast) -> (r: Field)
        requires
            self.wf(),
            ast.wf(),
            self.nodes_typable(*ast),
        ensures
            r.name@ == legacy_name(ast.identifier@),
            self.is_legacy_type_of(r.ty, *ast),
    {
        Field { name: NameSnakeCase::from_identifier(ast.identifier.clone()), ty: self.to_rust_type(ast) }
    }

    /// The struct of `ast`.
    pub fn to_struct(&self, ast: &Ast) -> (r: Struct)
        requires
            self.wf(),
            ast.wf(),
            self.nodes_typable(*ast),
        ensures
            self.is_struct_of(r, *ast),
    {
        let strct = Struct::new(NameSnakeCase::from_identifier(ast.identifier.clone()).to_pascal_case());
        match &ast.value {
            NodeValue::Composite { children, value: CompositeValue::Struct } => {
                let mut fields: Vec<Field> = Vec::new();
                let mut i: usize = 0;
                while i < children.len()
                    invariant
                        self.wf(),
                        ast.wf(),
                        self.nodes_typable(*ast),
                        ast.value is Composite,
                        ast.value->children == *children,
                        i <= children@.len(),
                        fields@.len() == i,
                        forall|k: int| 0 <= k < i ==> (#[trigger] fields@[k]).name@ == legacy_name(children@[k].1.identifier@)
                            && self.is_legacy_type_of(fields@[k].ty, children@[k].1),
                    decreases children@.len() - i,
                {
                    proof { lemma_child_typable(*self, *ast, i as int); }
                    fields.push(self.to_field(&children[i].1));
                    i = i + 1;
                }
                strct.with_fields(fields)
            },
            _ => strct,
        }
    }

    /// The declaration of the value of `ast`.
    pub fn to_initialization(&self, ast: &Ast) -> (r: Initialization)
        requires
            self.wf(),
            ast.wf(),
            self.nodes_typable(*ast),
        ensures
            self.is_initialization_of(r, *ast),
    {
        let ghost empty = Seq::<IdentifierView>::empty();
        assert(ast.lookup(empty) == Some(*ast));
        let name = NameSnakeCase::from_identifier(ast.identifier.clone()).concat(NameSnakeCase::from_identifier(self.context_name(&ast.id)));
        let ty = self.to_rust_type(ast);
        let value = self.to_rust_value(ast);
        Initialization { var_ty: VariableType::Const, ty, name, value }
    }

    /// The module of `ast`: its struct and the modules of its composite
    /// children, without declarations.
    pub fn to_module(&self, ast: &Ast) -> (r: Module)
        requires
            self.wf(),
            ast.wf(),
            self.nodes_typable(*ast),
        ensures
            r.initializations@.len() == 0,
            self.is_module_core_of(r, *ast),
        decreases ast,
    {
        let name = NameSnakeCase::from_identifier(ast.identifier.clone());
        let strct = self.to_struct(ast);
        let mut modules: Vec<Module> = Vec::new();
        match &ast.value {
            NodeValue::Composite { children, .. } => {
                let mut i: usize = 0;
                while i < children.len()
                    invariant
                        self.wf(),
                        ast.wf(),
                        self.nodes_typable(*ast),
                        ast.value is Composite,
                        ast.value->children == *children,
                        i <= children@.len(),
                        self.modules_ok(modules@, children@, i as int),
                    decreases children@.len() - i,
                {
                    let ghost prev = composite_upto(children@, i as int);
                    if let NodeValue::Composite { .. } = &children[i].1.value {
                        proof { lemma_child_typable(*self, *ast, i as int); }
                        assert(decreases_to!(ast => ast.value));
                        assert(decreases_to!(ast.value => ast.value->children));
                        assert(decreases_to!(*children => children@));
                        assert(decreases_to!(children@ => children@[i as int]));
                        assert(decreases_to!(children@[i as int] => children@[i as int].1));
                        let ghost before = modules@;
                        modules.push(self.to_module(&children[i].1));
                        let ghost ms = modules@;
                        let ghost c = composite_upto(children@, i + 1);
                        assert(c == prev.push(i as int));
                        assert forall|k: int| 0 <= k < ms.len() implies 0 <= #[trigger] c[k] < children@.len()
                            && ms[k].initializations@.len() == 0 && self.is_module_core_of(ms[k], children@[c[k]].1) by {
                            if k < before.len() {
                                assert(ms[k] == before[k]);
                                assert(c[k] == prev[k]);
                            }
                        }
                    } else {
                        assert(composite_upto(children@, i + 1) == prev);
                    }
                    i = i + 1;
                }
            },
            NodeValue::Literal(_) => {},
        }
        let r = Module { name, strcts: vec![StructVariation::Struct(strct)], initializations: Vec::new(), modules };
        assert(r.strcts@[0] == StructVariation::Struct(strct));
        r
    }
}

/// Every literal of the tree `node` can be typed and every list has an
/// element `0`.
pub open spec fn literals_typable(node: Ast) -> bool {
    forall|q: Seq<IdentifierView>| #[trigger] node.lookup(q) is Some ==> match node.lookup(q).unwrap().value {
        NodeValue::Literal(l) => typable_literal(l),
        NodeValue::Composite { children, value: CompositeValue::List { .. } } => find_key(children@, IdentifierView::ArrayIndex(0)) is Some,
        _ => true,
    }
}

/// Taking a node from its parent changes no node below it.
pub proof fn lemma_detached_lookup(a: Ast, q: Seq<IdentifierView>)
    ensures
        q.len() > 0 ==> (Ast { parent: None, ..a }).lookup(q) == a.lookup(q),
        q.len() == 0 ==> (Ast { parent: None, ..a }).lookup(q) == Some(Ast { parent: None, ..a }),
{
}

impl AstContext {
    /// The module of the first localization with, for each localization,
    /// the declaration of its node at the first localization's path.
    pub fn map_module(&self) -> (r: Module)
        requires
            self.wf(),
            self.contexts@.len() >= 1,
            self.contexts@[0].wf(),
            self.nodes_typable(self.contexts@[0]),
            forall|i: int| 0 <= i < self.contexts@.len() ==> {
                let n = (#[trigger] self.contexts@[i]).lookup(self.rel(self.contexts@[0].id));
                n is Some && n.unwrap().wf() && self.nodes_typable(n.unwrap())
            },
        ensures
            self.is_module_core_of(r, self.contexts@[0]),
            r.initializations@.len() == self.contexts@.len(),
            forall|i: int| 0 <= i < self.contexts@.len() ==> self.is_initialization_of(
                #[trigger] r.initializations@[i],
                self.contexts@[i].lookup(self.rel(self.contexts@[0].id)).unwrap(),
            ),
    {
        let ghost empty = Seq::<IdentifierView>::empty();
        assert(self.contexts@[0].lookup(empty) == Some(self.contexts@[0]));
        let node = &self.contexts[0];
        let mut module = self.to_module(node);
        let relative_path = self.relative_path(&node.id);
        let mut initializations: Vec<Initialization> = Vec::new();
        let mut i: usize = 0;
        while i < self.contexts.len()
            invariant
                self.wf(),
                relative_path@ == self.rel(self.contexts@[0].id),
                forall|i: int| 0 <= i < self.contexts@.len() ==> {
                    let n = (#[trigger] self.contexts@[i]).lookup(self.rel(self.contexts@[0].id));
                    n is Some && n.unwrap().wf() && self.nodes_typable(n.unwrap())
                },
                i <= self.contexts@.len(),
                initializations@.len() == i,
                forall|k: int| 0 <= k < i ==> self.is_initialization_of(
                    #[trigger] initializations@[k],
                    self.contexts@[k].lookup(self.rel(self.contexts@[0].id)).unwrap(),
                ),
            decreases self.contexts@.len() - i,
        {
            let ghost ctx_i = self.contexts@[i as int];
            assert(ctx_i.lookup(self.rel(self.contexts@[0].id)) is Some);
            let n = self.contexts[i].by_path(&relative_path).unwrap();
            initializations.push(self.to_initialization(n));
            i = i + 1;
        }
        module.initializations = initializations;
        module
    }
}

/// The module of the first localization among the children of
/// `ast_with_contexts`, with a declaration per localization: reads the
/// localizations, then maps them (see `AstContext::map_module`). The id of
/// the first localization's root must occur nowhere else in the tree.
pub fn map(ast_with_contexts: Ast) -> (r: Module)
    requires
        ast_with_contexts.wf(),
        ast_with_contexts.value is Composite,
        ast_with_contexts.kids().len() >= 1,
        forall|i: int| 0 <= i < ast_with_contexts.kids().len() ==> literals_typable(#[trigger] ast_with_contexts.kids()[i].1),
        forall|i: int, q: Seq<IdentifierView>| 0 <= i < ast_with_contexts.kids().len() && !(i == 0 && q.len() == 0)
            && (#[trigger] ast_with_contexts.kids()[i].1.lookup(q)) is Some
            ==> ast_with_contexts.kids()[i].1.lookup(q).unwrap().id != ast_with_contexts.kids()[0].1.id,
    ensures
        exists|ctx: AstContext| {
            &&& ctx.wf()
            &&& ctx.contexts@.len() == ast_with_contexts.kids().len()
            &&& forall|i: int| 0 <= i < ctx.contexts@.len() ==> #[trigger] ctx.contexts@[i] == (Ast { parent: None, ..ast_with_contexts.kids()[i].1 })
            &&& ctx.is_module_core_of(r, ctx.contexts@[0])
            &&& r.initializations@.len() == ctx.contexts@.len()
            &&& forall|i: int| 0 <= i < ctx.contexts@.len() ==> ctx.is_initialization_of(#[trigger] r.initializations@[i], ctx.contexts@[i])
        },
{
    let ghost kids = ast_with_contexts.kids();
    let ctx = AstContext::from_tree(ast_with_contexts);
    let ghost locals = ctx.contexts@;
    let ghost map = ctx.id_to_path@;
    let ghost root0 = locals[0];
    proof {
        let p0 = seq![root0.identifier@];
        assert(p0.drop_first() =~= Seq::<IdentifierView>::empty());
        assert(root0.is_absolute_path(p0));
        lemma_path_recorded(map, locals, 0, p0);
        lemma_recorded_path_of(map, locals, root0.id);
        let ri = recorded_index(map, root0.id).unwrap();
        let p = map[ri].1@;
        let i = choose|i: int| 0 <= i < locals.len() && (#[trigger] locals[i]).is_absolute_path(p) && locals[i].at_absolute_path(p).id == root0.id;
        lemma_detached_lookup(kids[i].1, p.drop_first());
        if !(i == 0 && p.drop_first().len() == 0) {
            assert(kids[i].1.lookup(p.drop_first()) is Some);
            assert(false);
        }
        assert(ctx.rel(root0.id) =~= Seq::<IdentifierView>::empty());
        assert forall|i: int| 0 <= i < locals.len() implies {
            let n = (#[trigger] locals[i]).lookup(ctx.rel(root0.id));
            n is Some && n.unwrap().wf() && ctx.nodes_typable(n.unwrap())
        } by {
            let e = Seq::<IdentifierView>::empty();
            assert(ctx.rel(root0.id) == e);
            assert(locals[i].lookup(e) == Some(locals[i]));
            crate::ast::lemma_wf_by_value(locals[i], kids[i].1);
            assert(kids[i].1.wf());
            assert forall|q: Seq<IdentifierView>| #[trigger] locals[i].lookup(q) is Some implies {
                let n = locals[i].lookup(q).unwrap();
                &&& ctx.has_id(n.id)
                &&& match n.value {
                    NodeValue::Literal(l) => typable_literal(l),
                    NodeValue::Composite { children, value: CompositeValue::List { .. } } => find_key(children@, IdentifierView::ArrayIndex(0)) is Some,
                    _ => true,
                }
            } by {
                lemma_detached_lookup(kids[i].1, q);
                assert(kids[i].1.lookup(q) is Some);
                let pq = seq![locals[i].identifier@] + q;
                assert(pq.drop_first() =~= q);
                assert(pq[0] == locals[i].identifier@);
                assert(locals[i].is_absolute_path(pq));
                lemma_path_recorded(map, locals, i, pq);
            }
        }
    }
    let r = ctx.map_module();
    r
}

/// A list becomes one value repeated its amount of times exactly where
/// every localization holds a list of that amount at its path; otherwise
/// each element is listed, in the order of their keys.
pub proof fn law_list_value_repeated(ctx: AstContext, r: RustValue, node: Ast)
    requires
        ctx.is_legacy_value_of(r, node),
        node.value matches NodeValue::Composite { value: CompositeValue::List { .. }, .. },
    ensures
        ({
            let amount = node.value->value->amount;
            if ctx.same_amount(ctx.rel(node.id), amount) {
                r matches RustValue::ListRepeated { amount: a, .. } && a == amount
            } else {
                r matches RustValue::List(vs) && vs@.len() == node.kids().len()
            }
        }),
{
}

/// The type that the first form of the generator gives an integer leaf is
/// an integer type whose least and greatest values are those of the type
/// the literal was written in, so a value of `N` bits gets a type of `N`
/// bits.
pub proof fn law_legacy_integer_leaf_type(ctx: AstContext, r: RustType, node: Ast, i: IntegerValue)
    requires
        ctx.is_legacy_type_of(r, node),
        node.value == NodeValue::Literal(LiteralValue::Integer(i)),
    ensures
        r matches RustType::Integer { unsigned, bits }
            && crate::rust::rust_generator::ty::int_type_min(unsigned, bits) == crate::rust::rust_generator::ty::literal_range(i).0
            && crate::rust::rust_generator::ty::int_type_max(unsigned, bits) == crate::rust::rust_generator::ty::literal_range(i).1,
{
    crate::rust::rust_generator::ty::law_integer_type_width(i);
}

} // verus!
