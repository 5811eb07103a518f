use vstd::prelude::*;

use crate::ast::Ast;
use crate::identifier::{is_permutation, is_sorted_by, sorting_order, Identifier, IdentifierView};
use crate::node_value::NodeValue;
use crate::rust::generator::path::Path;
use crate::rust::rust_generator::context::Context;
use crate::rust::rust_generator::ty::{has_type_path, is_type_of, RustType};
use crate::rust::shared::name::{identifier_text, snake_name_of, NameSnakeCase};
use crate::text::{push_str, string_of};

verus! {

/// A field of a generated struct: its name and type, whether it holds an
/// `Option` and whether it is public.
pub struct Field {
    pub name: NameSnakeCase,
    pub ty: RustType,
    pub optional: bool,
    pub public: bool,
}

impl Field {
    /// A private field that may hold no value.
    pub fn optional(name: NameSnakeCase, ty: RustType) -> (r: Self)
        ensures
            r.name == name,
            r.ty == ty,
            r.optional,
            !r.public,
    {
        Field { name, ty, optional: true, public: false }
    }

    /// A private field.
    pub fn new(name: NameSnakeCase, ty: RustType) -> (r: Self)
        ensures
            r.name == name,
            r.ty == ty,
            !r.optional,
            !r.public,
    {
        Field { name, ty, optional: false, public: false }
    }

    /// A public field.
    pub fn public(name: NameSnakeCase, ty: RustType) -> (r: Self)
        ensures
            r.name == name,
            r.ty == ty,
            !r.optional,
            r.public,
    {
        Field { name, ty, optional: false, public: true }
    }
}

/// The name of the field of a child with the identifier `id`.
pub open spec fn field_name_of(id: Identifier) -> Seq<char> {
    snake_name_of(identifier_text(id))
}

/// The field names of `kids`, as identifiers to be ordered.
pub open spec fn field_keys(kids: Seq<(Identifier, Ast)>) -> Seq<IdentifierView> {
    kids.map_values(|e: (Identifier, Ast)| IdentifierView::Field(field_name_of(e.1.identifier)))
}

/// The name of the field that holds the selected context.
pub open spec fn context_field_name() -> Seq<char> {
    snake_name_of(seq!['c', 'o', 'm', 'f', 'y', '_', 'i', '1', '8', 'n', '_', 'c', 'o', 'n', 't', 'e', 'x', 't'])
}

/// The fields of the struct generated for the composite node `node`: one
/// optional field per child, named after it and typed as seen from the
/// struct's path, in the order of their names; and, where asked for, the
/// field that holds the selected context.
pub fn struct_fields(node: &Ast, context: &Context, with_comfy_i18n_context: bool) -> (r: Vec<Field>)
    requires
        context.wf(),
        context.has_id(node.id),
        node.value is Composite,
        forall|i: int| 0 <= i < node.kids().len() ==> has_type_path(#[trigger] node.kids()[i].1) ==> context.has_id(node.kids()[i].1.id),
    ensures
        ({
            let kids = node.kids();
            let n = kids.len();
            &&& r@.len() == n + if with_comfy_i18n_context { 1int } else { 0 }
            &&& exists|order: Seq<int>| #![trigger is_sorted_by(field_keys(kids), order)]
                is_permutation(order, n as int) && is_sorted_by(field_keys(kids), order)
                && forall|j: int| 0 <= j < n ==> 0 <= order[j] < n && {
                    let kid = kids[order[j]].1;
                    &&& (#[trigger] r@[j]).name@ == field_name_of(kid.identifier)
                    &&& r@[j].optional && !r@[j].public
                    &&& exists|path: Path| #[trigger] is_type_of(r@[j].ty, kid, *context, path)
                        && path.mods_v() == crate::rust::rust_generator::ty::root_mods(*context, node.id)
                        && path.ty_v() == crate::rust::rust_generator::ty::root_ty(*context, node.id)
                }
            &&& with_comfy_i18n_context ==> {
                &&& r@[n as int].name@ == context_field_name()
                &&& r@[n as int].ty matches RustType::Other(p)
                    && p.mods_v() == seq![snake_name_of(seq!['c', 'r', 'a', 't', 'e'])]
                    && p.ty_v() == Some(crate::rust::shared::name::pascal_name_of(seq!['I', '1', '8', 'n']))
                &&& !r@[n as int].optional && !r@[n as int].public
            }
        }),
{
    let path = context.relative_path_to_root(&node.id);
    let ghost kids = node.kids();
    let children = node.children().unwrap();
    let n = children.len();
    let mut names: Vec<NameSnakeCase> = Vec::new();
    let mut keys: Vec<Identifier> = Vec::new();
    let mut i: usize = 0;
    while i < n
        invariant
            n == kids.len(),
            children@.len() == n,
            forall|k: int| 0 <= k < n ==> *(#[trigger] children@[k]) == kids[k].1,
            i <= n,
            names@.len() == i,
            keys@.len() == i,
            forall|k: int| 0 <= k < i ==> (#[trigger] names@[k])@ == field_name_of(kids[k].1.identifier) && keys@[k]@ == IdentifierView::Field(names@[k]@),
        decreases n - i,
    {
        let name = NameSnakeCase::from_identifier(children[i].identifier.clone());
        keys.push(Identifier::Field(crate::text::string_from(name.as_str())));
        names.push(name);
        i = i + 1;
    }
    let ghost kv = keys@.map_values(|k: Identifier| k@);
    assert forall|k: int| 0 <= k < n implies #[trigger] kv[k] == field_keys(kids)[k] by {
        assert(names@[k]@ == field_name_of(kids[k].1.identifier));
    }
    assert(kv =~= field_keys(kids));
    let order = sorting_order(&keys);
    let ghost ord = order@.map_values(|i: usize| i as int);
    let mut fields: Vec<Field> = Vec::new();
    let mut j: usize = 0;
    while j < n
        invariant
            context.wf(),
            forall|i: int| 0 <= i < kids.len() ==> has_type_path(#[trigger] kids[i].1) ==> context.has_id(kids[i].1.id),
            n == kids.len(),
            children@.len() == n,
            forall|k: int| 0 <= k < n ==> *(#[trigger] children@[k]) == kids[k].1,
            names@.len() == n,
            forall|k: int| 0 <= k < n ==> (#[trigger] names@[k])@ == field_name_of(kids[k].1.identifier),
            order@.len() == n,
            ord == order@.map_values(|i: usize| i as int),
            is_permutation(ord, n as int),
            j <= n,
            fields@.len() == j,
            forall|m: int| 0 <= m < j ==> 0 <= ord[m] < n && {
                let kid = kids[ord[m]].1;
                &&& (#[trigger] fields@[m]).name@ == field_name_of(kid.identifier)
                &&& fields@[m].optional && !fields@[m].public
                &&& is_type_of(fields@[m].ty, kid, *context, path)
            },
        decreases n - j,
    {
        let k = order[j];
        assert(ord[j as int] == k as int);
        let name = NameSnakeCase(crate::text::string_from(names[k].as_str()));
        let ty = RustType::new(children[k], context, &path);
        fields.push(Field::optional(name, ty));
        j = j + 1;
    }
    if with_comfy_i18n_context {
        let name = NameSnakeCase::from_string(string_of(&['c', 'o', 'm', 'f', 'y', '_', 'i', '1', '8', 'n', '_', 'c', 'o', 'n', 't', 'e', 'x', 't']));
        let ghost before = fields@;
        fields.push(Field::new(name, RustType::Other(context.context_key())));
        assert forall|m: int| 0 <= m < n implies #[trigger] fields@[m] == before[m] by {}
    }
    assert(is_sorted_by(field_keys(kids), ord));
    fields
}

/// The arm of a generated `by_path` match for the field `name` of type
/// `ty`: a template field answers with its formatted value, a struct, a
/// tuple or a list hands the rest of the path on, anything else answers
/// with the field's value.
pub open spec fn by_path_arm_text(name: Seq<char>, ty: RustType) -> Seq<char> {
    "\""@ + name + "\" => self."@ + name + match ty {
        RustType::Format(_) => "_value()"@,
        RustType::Struct(_) | RustType::Tuple(_) | RustType::List(_) => "().by_path(path)"@,
        _ => "()"@,
    }
}

/// The arm of a generated `by_path` match for the field `name` of type `ty`
/// (see `by_path_arm_text`).
pub fn by_path_arm(name: &str, ty: &RustType) -> (r: String)
    ensures
        r@ == by_path_arm_text(name@, *ty),
{
    let mut r = String::new();
    push_str(&mut r, "\"");
    push_str(&mut r, name);
    push_str(&mut r, "\" => self.");
    push_str(&mut r, name);
    match ty {
        RustType::Format(_) => push_str(&mut r, "_value()"),
        RustType::Struct(_) | RustType::Tuple(_) | RustType::List(_) => push_str(&mut r, "().by_path(path)"),
        _ => push_str(&mut r, "()"),
    }
    r
}

/// `s` holds `part` somewhere.
pub open spec fn holds_text(s: Seq<char>, part: Seq<char>) -> bool {
    exists|i: int| 0 <= i && i + part.len() <= s.len() && #[trigger] s.subrange(i, i + part.len()) == part
}

/// Whether `s` holds `part` somewhere.
pub fn text_holds(s: &str, part: &str) -> (r: bool)
    ensures
        r == holds_text(s@, part@),
{
    let cs = crate::text::chars_of(s);
    let ps = crate::text::chars_of(part);
    if ps.len() > cs.len() {
        return false;
    }
    let last = cs.len() - ps.len();
    let mut i: usize = 0;
    while i <= last
        invariant
            cs@ == s@,
            ps@ == part@,
            ps@.len() <= cs@.len(),
            last == cs@.len() - ps@.len(),
            cs@.len() == cs.len(),
            i <= last + 1,
            forall|k: int| 0 <= k < i ==> #[trigger] cs@.subrange(k, k + ps@.len()) != ps@,
        decreases cs@.len() - i,
    {
        let mut j: usize = 0;
        let mut same = true;
        while j < ps.len()
            invariant
                cs@ == s@,
                ps@ == part@,
                cs@.len() == cs.len(),
                i + ps@.len() <= cs@.len(),
                j <= ps@.len(),
                same == (forall|m: int| 0 <= m < j ==> cs@[i + m] == ps@[m]),
            decreases ps@.len() - j,
        {
            same = same && cs[i + j] == ps[j];
            j = j + 1;
        }
        if same {
            assert(cs@.subrange(i as int, i + ps@.len()) =~= ps@);
            return true;
        }
        assert(cs@.subrange(i as int, i + ps@.len()) != ps@) by {
            let m = choose|m: int| 0 <= m < ps@.len() && cs@[i + m] != ps@[m];
            assert(cs@.subrange(i as int, i + ps@.len())[m] == cs@[i + m]);
        }
        i = i + 1;
    }
    assert forall|k: int| 0 <= k && k + ps@.len() <= cs@.len() implies #[trigger] cs@.subrange(k, k + ps@.len()) != ps@ by {}
    false
}

/// The arms of the generated `by_path` match of a struct with the fields
/// `fields`, in order: one per field, except the fields whose names hold
/// `comfy_i18n` (the struct's link to its context).
pub open spec fn by_path_arms_of(fields: Seq<Field>) -> Seq<Seq<char>>
    decreases fields.len(),
{
    if fields.len() == 0 {
        Seq::empty()
    } else {
        let rest = by_path_arms_of(fields.drop_last());
        let f = fields.last();
        if holds_text(f.name@, "comfy_i18n"@) {
            rest
        } else {
            rest.push(by_path_arm_text(f.name@, f.ty))
        }
    }
}

/// The arms of the generated `by_path` match of a struct (see
/// `by_path_arms_of`).
pub fn by_path_arms(fields: &Vec<Field>) -> (r: Vec<String>)
    ensures
        r@.map_values(|a: String| a@) == by_path_arms_of(fields@),
{
    let mut r: Vec<String> = Vec::new();
    let mut i: usize = 0;
    while i < fields.len()
        invariant
            i <= fields@.len(),
            r@.map_values(|a: String| a@) == by_path_arms_of(fields@.subrange(0, i as int)),
        decreases fields@.len() - i,
    {
        assert(fields@.subrange(0, i + 1).drop_last() =~= fields@.subrange(0, i as int));
        let f = &fields[i];
        if !text_holds(f.name.as_str(), "comfy_i18n") {
            let ghost before = r@;
            r.push(by_path_arm(f.name.as_str(), &f.ty));
            assert(r@.map_values(|a: String| a@) =~= before.map_values(|a: String| a@).push(by_path_arm_text(f.name@, f.ty)));
        }
        i = i + 1;
    }
    assert(fields@.subrange(0, fields@.len() as int) =~= fields@);
    r
}

} // verus!
