use vstd::prelude::*;

use crate::ast::Ast;
use crate::identifier::{identifier_display, is_permutation, is_sorted_by, sorting_order, Identifier, IdentifierView};
use crate::node_value::{CompositeValue, FloatValue, IntegerValue, LiteralValue, NodeValue, StringValue};
use crate::rust::generator::path::Path;
use crate::rust::rust_generator::context::{path_index, Context};
use crate::rust::rust_generator::ty::{root_mods, root_ty};
use crate::rust::rust_generator::var_ty::VariableType;
use crate::rust::shared::name::{pascal_name_of, snake_name_of, NameSnakeCase};
use crate::template::Template;

verus! {

/// A value of the generated code.
pub enum RustValue {
    String(String),
    Format { path: Path, template: Template, context_variant: Box<RustValue> },
    Char(char),
    Float(FloatValue),
    Integer(IntegerValue),
    Bool(bool),
    Reference { var_ty: VariableType, mod_name: NameSnakeCase, var_name: NameSnakeCase },
    ContextVariant { path: Path, variant: String },
    Struct { path: Path, fields: Vec<RustValue> },
    Tuple(Vec<RustValue>),
    ListRepeated { value: Box<RustValue>, amount: usize },
    List(Vec<RustValue>, bool),
    /// A value that is there (an `Option`'s `Some`).
    SomeValue(Box<RustValue>),
    /// No value in this context (an `Option`'s `None`).
    NoValue,
    /// An expression written out by the author, as text.
    Cast(String),
}

/// A field of a generated struct value: its name, its value, and whether
/// the field holds an `Option`.
pub struct FieldValue {
    pub name: NameSnakeCase,
    pub value: RustValue,
    pub optional: bool,
}

impl FieldValue {
    /// A field that holds an `Option`.
    pub fn optional(name: NameSnakeCase, value: RustValue) -> (r: Self)
        ensures
            r.name == name,
            r.value == value,
            r.optional,
    {
        FieldValue { name, value, optional: true }
    }

    /// A field that holds its value as it is.
    pub fn new(name: NameSnakeCase, value: RustValue) -> (r: Self)
        ensures
            r.name == name,
            r.value == value,
            !r.optional,
    {
        FieldValue { name, value, optional: false }
    }
}

/// `p` is the generated path of the node `id` from the component's root.
pub open spec fn is_root_path(p: Path, ctx: Context, id: crate::node_id::NodeId) -> bool {
    p.mods_v() == root_mods(ctx, id) && p.ty_v() == root_ty(ctx, id)
}

/// `r` names the context `variant` of the application: `crate::I18n`
/// and the variant's name.
pub open spec fn is_context_variant(r: RustValue, variant: IdentifierView) -> bool {
    r matches RustValue::ContextVariant { path, variant: v }
        && path.mods_v() == seq![snake_name_of(seq!['c', 'r', 'a', 't', 'e'])]
        && path.ty_v() == Some(pascal_name_of(seq!['I', '1', '8', 'n']))
        && v@ == identifier_display(variant)
}

/// What was recorded of the node `id` being held in a `Copy` type.
pub open spec fn copy_flag(ctx: Context, id: crate::node_id::NodeId) -> bool {
    match path_index(ctx.relative_path_to_is_copy@, ctx.rel(id)) {
        Some(i) => ctx.relative_path_to_is_copy@[i].1,
        None => false,
    }
}

/// The keys of `kids`.
pub open spec fn keys_of(kids: Seq<(Identifier, Ast)>) -> Seq<IdentifierView> {
    kids.map_values(|e: (Identifier, Ast)| e.0@)
}

/// The entries of `order` (below `n`) whose child has a node in the
/// localization `variant`, in order.
pub open spec fn kept_upto(ctx: Context, kids: Seq<(Identifier, Ast)>, order: Seq<int>, variant: IdentifierView, n: int) -> Seq<int>
    decreases n,
{
    if n <= 0 {
        Seq::empty()
    } else {
        let prev = kept_upto(ctx, kids, order, variant, n - 1);
        let k = order[n - 1];
        if 0 <= k < kids.len() && ctx.variant_node(kids[k].1.id, variant) is Some {
            prev.push(k)
        } else {
            prev
        }
    }
}

/// `r` is the generated value of the reference node `node` in the
/// localization `variant`: `NoValue` where that localization lacks the
/// node; for a struct, its fields in the order of their keys (each
/// present one as `SomeValue`) and the context; for a tuple, the context
/// and its elements; for a list, its elements (one repeated where the list
/// repeats one value), without the missing ones; for a literal, the
/// localization's value.
pub open spec fn is_value_of(r: RustValue, ctx: Context, node: Ast, variant: IdentifierView) -> bool
    decreases node,
{
    match ctx.variant_node(node.id, variant) {
        None => r is NoValue,
        Some(v) => match node.value {
            NodeValue::Composite { children, value } => {
                let kids = children@;
                exists|order: Seq<int>| #![trigger is_sorted_by(keys_of(kids), order)]
                    is_permutation(order, kids.len() as int) && is_sorted_by(keys_of(kids), order) && match value {
                    CompositeValue::Struct => (r matches RustValue::Struct { path, fields }
                        && is_root_path(path, ctx, node.id)
                        && fields@.len() == kids.len() + 1
                        && is_context_variant(fields@[kids.len() as int], variant)
                        && forall|j: int| 0 <= j < kids.len() ==> (0 <= order[j] < kids.len() ==> match ctx.variant_node(kids[order[j]].1.id, variant) {
                            None => (#[trigger] fields@[j]) is NoValue,
                            Some(_) => (fields@[j] matches RustValue::SomeValue(b) && is_value_of(*b, ctx, kids[order[j]].1, variant)),
                        })),
                    CompositeValue::Tuple => (r matches RustValue::Struct { path, fields }
                        && is_root_path(path, ctx, node.id)
                        && fields@.len() == 2
                        && is_context_variant(fields@[0], variant)
                        && (fields@[1] matches RustValue::Tuple(vs)
                        && vs@.len() == kids.len()
                        && forall|j: int| 0 <= j < kids.len() ==> (0 <= order[j] < kids.len() ==>
                            ((#[trigger] vs@[j]) matches RustValue::SomeValue(b) && is_value_of(*b, ctx, kids[order[j]].1, variant))))),
                    CompositeValue::List { amount } => (r matches RustValue::Struct { path, fields }
                        && is_root_path(path, ctx, node.id)
                        && fields@.len() == 1
                        && if kids.len() == 1 {
                            if copy_flag(ctx, node.id) {
                                (fields@[0] matches RustValue::ListRepeated { value: b, amount: a } && a == amount && is_value_of(*b, ctx, kids[0].1, variant))
                            } else {
                                (fields@[0] matches RustValue::List(vs, c) && !c
                                    && vs@.len() == (if ctx.variant_node(kids[0].1.id, variant) is Some { amount as int } else { 0 })
                                    && forall|i: int| 0 <= i < vs@.len() ==> is_value_of(#[trigger] vs@[i], ctx, kids[0].1, variant))
                            }
                        } else {
                            (fields@[0] matches RustValue::List(vs, c) && c == copy_flag(ctx, node.id)
                                && vs@.len() == kept_upto(ctx, kids, order, variant, kids.len() as int).len()
                                && forall|i: int| 0 <= i < vs@.len() ==> {
                                    let k = kept_upto(ctx, kids, order, variant, kids.len() as int)[i];
                                    0 <= k < kids.len() ==> is_value_of(#[trigger] vs@[i], ctx, kids[k].1, variant)
                                })
                        }),
                }
            },
            NodeValue::Literal(_) => match v.value {
                NodeValue::Literal(LiteralValue::String(StringValue::Literal(s))) => r matches RustValue::String(t) && t@ == s@,
                NodeValue::Literal(LiteralValue::String(StringValue::Template(t))) => r matches RustValue::Format { path, template, context_variant }
                    && is_root_path(path, ctx, v.id) && template@ == t@ && is_context_variant(*context_variant, variant),
                NodeValue::Literal(LiteralValue::Char(c)) => r matches RustValue::Char(d) && d == c,
                NodeValue::Literal(LiteralValue::Float(f)) => r matches RustValue::Float(g) && g == f,
                NodeValue::Literal(LiteralValue::Integer(i)) => r matches RustValue::Integer(j) && j == i,
                NodeValue::Literal(LiteralValue::Bool(b)) => r matches RustValue::Bool(c) && c == b,
                NodeValue::Literal(LiteralValue::Cast { expression, .. }) => r matches RustValue::Cast(e) && e@ == expression@,
                NodeValue::Composite { .. } => false,
            },
        },
    }
}

/// Every node of the tree `node` has a recorded path, and so has its
/// counterpart in the localization `variant`, which is a literal wherever
/// the node is one.
pub open spec fn nodes_known(ctx: Context, node: Ast, variant: IdentifierView) -> bool {
    forall|q: Seq<IdentifierView>| #[trigger] node.lookup(q) is Some ==> {
        let n = node.lookup(q).unwrap();
        &&& ctx.has_id(n.id)
        &&& match ctx.variant_node(n.id, variant) {
            Some(v) => ctx.has_id(v.id) && (n.value is Literal ==> v.value is Literal),
            None => true,
        }
    }
}

/// A child of a tree whose nodes are known is well formed and has its
/// nodes known.
pub proof fn lemma_child_known(ctx: Context, node: Ast, k: int, variant: IdentifierView)
    requires
        node.wf(),
        nodes_known(ctx, node, variant),
        node.value is Composite,
        0 <= k < node.value->children@.len(),
    ensures
        node.value->children@[k].1.wf(),
        nodes_known(ctx, node.value->children@[k].1, variant),
{
    let kids = node.value->children@;
    let kid = kids[k];
    crate::ast::lemma_find_own_key(kids, k);
    assert(kid.1.wf());
    let key = seq![kid.0@];
    assert forall|q: Seq<IdentifierView>| #[trigger] kid.1.lookup(q) is Some implies {
        let n = kid.1.lookup(q).unwrap();
        &&& ctx.has_id(n.id)
        &&& match ctx.variant_node(n.id, variant) {
            Some(v) => ctx.has_id(v.id) && (n.value is Literal ==> v.value is Literal),
            None => true,
        }
    } by {
        let fq = key + q;
        assert(fq[0] == kid.0@);
        assert(fq.drop_first() =~= q);
        assert(node.lookup(fq) == kid.1.lookup(q));
    }
}

impl RustValue {
    /// The value that names the context `variant`.
    fn context_variant_of(context: &Context, variant: &Identifier) -> (r: RustValue)
        ensures
            is_context_variant(r, variant@),
    {
        RustValue::ContextVariant { path: context.context_key(), variant: variant.to_text() }
    }

    /// The generated value of the reference node `ast_orig` in its own
    /// localization.
    pub fn new(ast: &Ast, context: &Context) -> (r: Self)
        requires
            context.wf(),
            ast.wf(),
            nodes_known(*context, *ast, IdentifierView::Field(identifier_display(context.variant_of(ast.id)))),
        ensures
            is_value_of(r, *context, *ast, IdentifierView::Field(identifier_display(context.variant_of(ast.id)))),
    {
        let ghost empty = Seq::<IdentifierView>::empty();
        assert(ast.lookup(empty) == Some(*ast));
        let variant = Identifier::Field(context.context_variant(&ast.id));
        Self::by_variant(ast, context, &variant)
    }

    /// The generated value of the reference node `ast_orig` in the
    /// localization `variant` (see `is_value_of`).
    #[verifier::rlimit(40)]
    pub fn by_variant(ast_orig: &Ast, context: &Context, variant: &Identifier) -> (r: Self)
        requires
            context.wf(),
            context.localization_index(variant@) is Some ==> context.has_id(ast_orig.id),
            context.variant_node(ast_orig.id, variant@) is Some ==> ast_orig.wf() && nodes_known(*context, *ast_orig, variant@),
        ensures
            is_value_of(r, *context, *ast_orig, variant@),
        decreases ast_orig,
    {
        let ghost empty = Seq::<IdentifierView>::empty();
        assert(ast_orig.lookup(empty) == Some(*ast_orig));
        let ast = match context.get_variant(&ast_orig.id, variant.clone()) {
            None => {
                return RustValue::NoValue;
            },
            Some(a) => a,
        };
        match &ast_orig.value {
            NodeValue::Composite { children, value } => {
                let ghost kids = children@;
                let n = children.len();
                let mut keys: Vec<Identifier> = Vec::new();
                let mut i: usize = 0;
                while i < n
                    invariant
                        n == kids.len(),
                        kids == children@,
                        i <= n,
                        keys@.len() == i,
                        forall|m: int| 0 <= m < i ==> #[trigger] keys@[m] == kids[m].0,
                    decreases n - i,
                {
                    keys.push(children[i].0.clone());
                    i = i + 1;
                }
                assert(keys@.map_values(|k: Identifier| k@) =~= keys_of(kids));
                let order = sorting_order(&keys);
                let ghost ord = order@.map_values(|i: usize| i as int);
                assert(is_permutation(ord, n as int));
                assert(is_sorted_by(keys_of(kids), ord));
                let mut vals: Vec<RustValue> = Vec::new();
                let mut j: usize = 0;
                while j < n
                    invariant
                        context.wf(),
                        ast_orig.wf(),
                        nodes_known(*context, *ast_orig, variant@),
                        ast_orig.value == (NodeValue::Composite { children: *children, value: *value }),
                        n == kids.len(),
                        kids == children@,
                        order@.len() == n,
                        ord == order@.map_values(|i: usize| i as int),
                        is_permutation(ord, n as int),
                        j <= n,
                        vals@.len() == j,
                        forall|m: int| 0 <= m < j ==> is_value_of(#[trigger] vals@[m], *context, kids[ord[m]].1, variant@),
                    decreases n - j,
                {
                    let k = order[j];
                    assert(ord[j as int] == k as int);
                    proof {
                        lemma_child_known(*context, *ast_orig, k as int, variant@);
                        assert(children@[k as int].1.lookup(Seq::<IdentifierView>::empty()) is Some);
                    }
                    assert(decreases_to!(ast_orig => ast_orig.value));
                    assert(decreases_to!(ast_orig.value => ast_orig.value->children));
                    assert(decreases_to!(*children => children@));
                    assert(decreases_to!(children@ => children@[k as int]));
                    assert(decreases_to!(children@[k as int] => children@[k as int].1));
                    let v = Self::by_variant(&children[k].1, context, variant);
                    vals.push(v);
                    j = j + 1;
                }
                let path = context.relative_path_to_root(&ast_orig.id);
                match value {
                    CompositeValue::Struct => {
                        let mut fields = Self::present_fields(vals, Ghost(*context), Ghost(kids), Ghost(ord), Ghost(variant@));
                        let ghost before = fields@;
                        fields.push(Self::context_variant_of(context, variant));
                        assert forall|j: int| 0 <= j < kids.len() implies #[trigger] fields@[j] == before[j] by {}
                        RustValue::Struct { path, fields }
                    },
                    CompositeValue::Tuple => {
                        let vs = Self::all_present(vals, Ghost(*context), Ghost(kids), Ghost(ord), Ghost(variant@));
                        let fields = vec![Self::context_variant_of(context, variant), RustValue::Tuple(vs)];
                        RustValue::Struct { path, fields }
                    },
                    CompositeValue::List { amount } => {
                        let list = if n == 1 {
                            assert(ord[0] == 0);
                            let mut vals = vals;
                            let first = vals.remove(0);
                            if context.is_copy(&ast_orig.id) {
                                RustValue::ListRepeated { value: Box::new(first), amount: *amount }
                            } else {
                                let mut vs: Vec<RustValue> = Vec::new();
                                if let RustValue::NoValue = first {
                                } else {
                                    proof { lemma_child_known(*context, *ast_orig, 0, variant@); }
                                    assert(decreases_to!(ast_orig => ast_orig.value));
                                    assert(decreases_to!(ast_orig.value => ast_orig.value->children));
                                    assert(decreases_to!(*children => children@));
                                    assert(decreases_to!(children@ => children@[0]));
                                    assert(decreases_to!(children@[0] => children@[0].1));
                                    let mut c: usize = 0;
                                    while c < *amount
                                        invariant
                                            context.wf(),
                                            ast_orig.value == (NodeValue::Composite { children: *children, value: *value }),
                                            children@.len() == 1,
                                            children@[0].1.wf(),
                                            nodes_known(*context, children@[0].1, variant@),
                                            c <= *amount,
                                            vs@.len() == c,
                                            forall|i: int| 0 <= i < vs@.len() ==> is_value_of(#[trigger] vs@[i], *context, children@[0].1, variant@),
                                        decreases *amount - c,
                                    {
                                        assert(decreases_to!(ast_orig => ast_orig.value));
                                        assert(decreases_to!(ast_orig.value => ast_orig.value->children));
                                        assert(decreases_to!(*children => children@));
                                        assert(decreases_to!(children@ => children@[0]));
                                        assert(decreases_to!(children@[0] => children@[0].1));
                                        assert(children@[0].1.lookup(Seq::<IdentifierView>::empty()) is Some);
                                        vs.push(Self::by_variant(&children[0].1, context, variant));
                                        c = c + 1;
                                    }
                                }
                                RustValue::List(vs, false)
                            }
                        } else {
                            let is_copy = context.is_copy(&ast_orig.id);
                            let vs = Self::kept_values(vals, Ghost(*context), Ghost(kids), Ghost(ord), Ghost(variant@));
                            RustValue::List(vs, is_copy)
                        };
                        let fields = vec![list];
                        RustValue::Struct { path, fields }
                    },
                }
            },
            NodeValue::Literal(..) => {
                let ghost v = context.variant_node(ast_orig.id, variant@).unwrap();
                assert(ast.value is Literal);
                match &ast.value {
                    NodeValue::Literal(LiteralValue::String(StringValue::Literal(lit))) => RustValue::String(lit.clone()),
                    NodeValue::Literal(LiteralValue::String(StringValue::Template(template))) => RustValue::Format {
                        path: context.relative_path_to_root(&ast.id),
                        template: template.clone(),
                        context_variant: Box::new(Self::context_variant_of(context, variant)),
                    },
                    NodeValue::Literal(LiteralValue::Char(c)) => RustValue::Char(*c),
                    NodeValue::Literal(LiteralValue::Float(f)) => RustValue::Float(f.clone()),
                    NodeValue::Literal(LiteralValue::Integer(i)) => RustValue::Integer(i.clone()),
                    NodeValue::Literal(LiteralValue::Bool(b)) => RustValue::Bool(*b),
                    NodeValue::Literal(LiteralValue::Cast { expression, .. }) => RustValue::Cast(expression.clone()),
                    NodeValue::Composite { .. } => RustValue::NoValue,
                }
            },
        }
    }

    /// The values of a struct's fields: each present one as `SomeValue`.
    fn present_fields(
        vals: Vec<RustValue>,
        Ghost(ctx): Ghost<Context>,
        Ghost(kids): Ghost<Seq<(Identifier, Ast)>>,
        Ghost(ord): Ghost<Seq<int>>,
        Ghost(variant): Ghost<IdentifierView>,
    ) -> (r: Vec<RustValue>)
        requires
            vals@.len() == kids.len(),
            ord.len() == kids.len(),
            forall|m: int| 0 <= m < vals@.len() ==> 0 <= #[trigger] ord[m] < kids.len(),
            forall|m: int| 0 <= m < vals@.len() ==> is_value_of(#[trigger] vals@[m], ctx, kids[ord[m]].1, variant),
        ensures
            r@.len() == kids.len(),
            forall|j: int| 0 <= j < kids.len() ==> match ctx.variant_node(kids[ord[j]].1.id, variant) {
                None => (#[trigger] r@[j]) is NoValue,
                Some(_) => (r@[j] matches RustValue::SomeValue(b) && is_value_of(*b, ctx, kids[ord[j]].1, variant)),
            },
    {
        let ghost all = vals@;
        let mut rest = vals;
        let mut r: Vec<RustValue> = Vec::new();
        while rest.len() > 0
            invariant
                all.len() == kids.len(),
                ord.len() == kids.len(),
                forall|m: int| 0 <= m < all.len() ==> 0 <= #[trigger] ord[m] < kids.len(),
                forall|m: int| 0 <= m < all.len() ==> is_value_of(#[trigger] all[m], ctx, kids[ord[m]].1, variant),
                r@.len() + rest@.len() == all.len(),
                rest@ == all.subrange(r@.len() as int, all.len() as int),
                forall|j: int| 0 <= j < r@.len() ==> match ctx.variant_node(kids[ord[j]].1.id, variant) {
                    None => (#[trigger] r@[j]) is NoValue,
                    Some(_) => (r@[j] matches RustValue::SomeValue(b) && is_value_of(*b, ctx, kids[ord[j]].1, variant)),
                },
            decreases rest@.len(),
        {
            let ghost m = r@.len() as int;
            let v = rest.remove(0);
            assert(v == all[m]);
            assert(is_value_of(all[m], ctx, kids[ord[m]].1, variant));
            let ghost before = r@;
            if let RustValue::NoValue = v {
                r.push(RustValue::NoValue);
            } else {
                r.push(RustValue::SomeValue(Box::new(v)));
            }
            assert(rest@ =~= all.subrange(r@.len() as int, all.len() as int));
            assert forall|j: int| 0 <= j < r@.len() implies match ctx.variant_node(kids[ord[j]].1.id, variant) {
                None => (#[trigger] r@[j]) is NoValue,
                Some(_) => (r@[j] matches RustValue::SomeValue(b) && is_value_of(*b, ctx, kids[ord[j]].1, variant)),
            } by {
                if j < m {
                    assert(r@[j] == before[j]);
                }
            }
        }
        r
    }

    /// Each value as present (`SomeValue`), in order.
    fn all_present(
        vals: Vec<RustValue>,
        Ghost(ctx): Ghost<Context>,
        Ghost(kids): Ghost<Seq<(Identifier, Ast)>>,
        Ghost(ord): Ghost<Seq<int>>,
        Ghost(variant): Ghost<IdentifierView>,
    ) -> (r: Vec<RustValue>)
        requires
            vals@.len() == kids.len(),
            ord.len() == kids.len(),
            forall|m: int| 0 <= m < vals@.len() ==> 0 <= #[trigger] ord[m] < kids.len(),
            forall|m: int| 0 <= m < vals@.len() ==> is_value_of(#[trigger] vals@[m], ctx, kids[ord[m]].1, variant),
        ensures
            r@.len() == kids.len(),
            forall|j: int| 0 <= j < kids.len() ==> ((#[trigger] r@[j]) matches RustValue::SomeValue(b) && is_value_of(*b, ctx, kids[ord[j]].1, variant)),
    {
        let ghost all = vals@;
        let mut rest = vals;
        let mut r: Vec<RustValue> = Vec::new();
        while rest.len() > 0
            invariant
                all.len() == kids.len(),
                forall|m: int| 0 <= m < all.len() ==> is_value_of(#[trigger] all[m], ctx, kids[ord[m]].1, variant),
                r@.len() + rest@.len() == all.len(),
                rest@ == all.subrange(r@.len() as int, all.len() as int),
                forall|j: int| 0 <= j < r@.len() ==> ((#[trigger] r@[j]) matches RustValue::SomeValue(b) && is_value_of(*b, ctx, kids[ord[j]].1, variant)),
            decreases rest@.len(),
        {
            let ghost m = r@.len() as int;
            let v = rest.remove(0);
            assert(v == all[m]);
            let ghost before = r@;
            r.push(RustValue::SomeValue(Box::new(v)));
            assert(rest@ =~= all.subrange(r@.len() as int, all.len() as int));
            assert forall|j: int| 0 <= j < r@.len() implies ((#[trigger] r@[j]) matches RustValue::SomeValue(b) && is_value_of(*b, ctx, kids[ord[j]].1, variant)) by {
                if j < m {
                    assert(r@[j] == before[j]);
                }
            }
        }
        r
    }

    /// `rs` are the values of the children kept among the first `n` of
    /// `order`.
    pub open spec fn kept_values_ok(rs: Seq<RustValue>, ctx: Context, kids: Seq<(Identifier, Ast)>, ord: Seq<int>, variant: IdentifierView, n: int) -> bool {
        let kept = kept_upto(ctx, kids, ord, variant, n);
        &&& rs.len() == kept.len()
        &&& forall|i: int| 0 <= i < rs.len() ==> 0 <= #[trigger] kept[i] < kids.len() && is_value_of(rs[i], ctx, kids[kept[i]].1, variant)
    }

    /// The values that are present, in order.
    fn kept_values(
        vals: Vec<RustValue>,
        Ghost(ctx): Ghost<Context>,
        Ghost(kids): Ghost<Seq<(Identifier, Ast)>>,
        Ghost(ord): Ghost<Seq<int>>,
        Ghost(variant): Ghost<IdentifierView>,
    ) -> (r: Vec<RustValue>)
        requires
            vals@.len() == kids.len(),
            ord.len() == kids.len(),
            forall|m: int| 0 <= m < vals@.len() ==> 0 <= #[trigger] ord[m] < kids.len(),
            forall|m: int| 0 <= m < vals@.len() ==> is_value_of(#[trigger] vals@[m], ctx, kids[ord[m]].1, variant),
        ensures
            r@.len() == kept_upto(ctx, kids, ord, variant, kids.len() as int).len(),
            forall|i: int| 0 <= i < r@.len() ==> {
                let k = kept_upto(ctx, kids, ord, variant, kids.len() as int)[i];
                0 <= k < kids.len() ==> is_value_of(#[trigger] r@[i], ctx, kids[k].1, variant)
            },
    {
        let ghost all = vals@;
        let mut rest = vals;
        let mut r: Vec<RustValue> = Vec::new();
        let mut done: usize = 0;
        let total = rest.len();
        while rest.len() > 0
            invariant
                all.len() == total,
                all.len() == kids.len(),
                ord.len() == kids.len(),
                forall|m: int| 0 <= m < all.len() ==> 0 <= #[trigger] ord[m] < kids.len(),
                forall|m: int| 0 <= m < all.len() ==> is_value_of(#[trigger] all[m], ctx, kids[ord[m]].1, variant),
                done + rest@.len() == all.len(),
                done <= all.len(),
                rest@ == all.subrange(done as int, all.len() as int),
                Self::kept_values_ok(r@, ctx, kids, ord, variant, done as int),
            decreases rest@.len(),
        {
            let ghost m = done as int;
            let ghost prev = kept_upto(ctx, kids, ord, variant, m);
            let v = rest.remove(0);
            assert(v == all[m]);
            assert(0 <= ord[m] < kids.len());
            let ghost before = r@;
            assert(kept_upto(ctx, kids, ord, variant, m + 1) == if ctx.variant_node(kids[ord[m]].1.id, variant) is Some {
                prev.push(ord[m])
            } else {
                prev
            });
            if let RustValue::NoValue = v {
                assert(ctx.variant_node(kids[ord[m]].1.id, variant) is None);
            } else {
                assert(ctx.variant_node(kids[ord[m]].1.id, variant) is Some);
                r.push(v);
                assert(r@[before.len() as int] == all[m]);
            }
            done = done + 1;
            assert(rest@ =~= all.subrange(done as int, all.len() as int));
            let ghost rs = r@;
            let ghost cur = kept_upto(ctx, kids, ord, variant, done as int);
            assert(rs.len() == cur.len());
            assert forall|i: int| 0 <= i < rs.len() implies 0 <= #[trigger] cur[i] < kids.len() && is_value_of(rs[i], ctx, kids[cur[i]].1, variant) by {
                if i < before.len() {
                    assert(r@[i] == before[i]);
                    assert(kept_upto(ctx, kids, ord, variant, done as int)[i] == prev[i]);
                } else {
                    assert(kept_upto(ctx, kids, ord, variant, done as int)[i] == ord[m]);
                    assert(r@[i] == all[m]);
                }
            }
        }
        r
    }
}

/// A generated value is `NoValue` exactly where the localization lacks the
/// node.
pub proof fn law_no_value_iff_missing(r: RustValue, ctx: Context, node: Ast, variant: IdentifierView)
    requires
        is_value_of(r, ctx, node, variant),
    ensures
        (r is NoValue) <==> ctx.variant_node(node.id, variant) is None,
{
}

/// The value of a struct node in a localization that has it: the struct
/// at the node's generated path, one field per child in ascending order of
/// the keys (no value where the localization lacks the child, the child's
/// own value otherwise), then the context it was read in.
pub proof fn law_struct_value(r: RustValue, ctx: Context, node: Ast, variant: IdentifierView)
    requires
        is_value_of(r, ctx, node, variant),
        node.value matches NodeValue::Composite { value: CompositeValue::Struct, .. },
        ctx.variant_node(node.id, variant) is Some,
    ensures
        r matches RustValue::Struct { path, fields } && {
            let kids = node.kids();
            &&& is_root_path(path, ctx, node.id)
            &&& fields@.len() == kids.len() + 1
            &&& is_context_variant(fields@[kids.len() as int], variant)
            &&& exists|order: Seq<int>| #![trigger is_sorted_by(keys_of(kids), order)]
                is_permutation(order, kids.len() as int) && is_sorted_by(keys_of(kids), order)
                && forall|j: int| 0 <= j < kids.len() ==> match ctx.variant_node(kids[order[j]].1.id, variant) {
                    None => (#[trigger] fields@[j]) is NoValue,
                    Some(_) => (fields@[j] matches RustValue::SomeValue(b) && is_value_of(*b, ctx, kids[order[j]].1, variant)),
                }
        },
{
    let kids = node.kids();
    let order = choose|order: Seq<int>| #![trigger is_sorted_by(keys_of(kids), order)]
        is_permutation(order, kids.len() as int) && is_sorted_by(keys_of(kids), order) && (r matches RustValue::Struct { path, fields }
            && is_root_path(path, ctx, node.id)
            && fields@.len() == kids.len() + 1
            && is_context_variant(fields@[kids.len() as int], variant)
            && forall|j: int| 0 <= j < kids.len() ==> (0 <= order[j] < kids.len() ==> match ctx.variant_node(kids[order[j]].1.id, variant) {
                None => (#[trigger] fields@[j]) is NoValue,
                Some(_) => (fields@[j] matches RustValue::SomeValue(b) && is_value_of(*b, ctx, kids[order[j]].1, variant)),
            }));
    assert forall|j: int| 0 <= j < kids.len() implies 0 <= #[trigger] order[j] < kids.len() by {
        assert(is_permutation(order, kids.len() as int));
    }
}

} // verus!
