use vstd::prelude::*;

use crate::ast::Ast;
use crate::identifier::{is_permutation, is_sorted_by, sorting_order, Identifier};
use crate::rust::generator::path::Path;
use crate::rust::rust_generator::context::Context;
use crate::rust::rust_generator::ty::{has_type_path, is_type_of, RustType};
use crate::rust::rust_generator::value::keys_of;
use crate::node_value::NodeValue;
use crate::text::{decimal, push_decimal, push_str};

verus! {

/// The types of the elements of the composite node `node`, in the order of
/// their keys, each seen from `path`.
pub fn element_types(node: &Ast, context: &Context, path: &Path) -> (r: Vec<RustType>)
    requires
        context.wf(),
        node.value is Composite,
        forall|i: int| 0 <= i < node.kids().len() ==> has_type_path(#[trigger] node.kids()[i].1) ==> context.has_id(node.kids()[i].1.id),
    ensures
        r@.len() == node.kids().len(),
        exists|order: Seq<int>| #![trigger is_sorted_by(keys_of(node.kids()), order)]
            is_permutation(order, node.kids().len() as int) && is_sorted_by(keys_of(node.kids()), order)
            && forall|j: int| 0 <= j < node.kids().len() ==> 0 <= order[j] < node.kids().len()
                && is_type_of(#[trigger] r@[j], node.kids()[order[j]].1, *context, *path),
{
    let ghost kids = node.kids();
    let children = node.children().unwrap();
    let n = children.len();
    let mut keys: Vec<Identifier> = Vec::new();
    let mut i: usize = 0;
    while i < n
        invariant
            node.value is Composite,
            kids == node.kids(),
            n == kids.len(),
            children@.len() == n,
            forall|k: int| 0 <= k < n ==> *(#[trigger] children@[k]) == kids[k].1,
            i <= n,
            keys@.len() == i,
            forall|k: int| 0 <= k < i ==> (#[trigger] keys@[k])@ == kids[k].0@,
        decreases n - i,
    {
        keys.push(node_key(node, i));
        i = i + 1;
    }
    let ghost kv = keys@.map_values(|k: Identifier| k@);
    assert forall|k: int| 0 <= k < n implies #[trigger] kv[k] == keys_of(kids)[k] by {}
    assert(kv =~= keys_of(kids));
    let order = sorting_order(&keys);
    let ghost ord = order@.map_values(|i: usize| i as int);
    let mut types: Vec<RustType> = Vec::new();
    let mut j: usize = 0;
    while j < n
        invariant
            context.wf(),
            forall|i: int| 0 <= i < kids.len() ==> has_type_path(#[trigger] kids[i].1) ==> context.has_id(kids[i].1.id),
            n == kids.len(),
            children@.len() == n,
            forall|k: int| 0 <= k < n ==> *(#[trigger] children@[k]) == kids[k].1,
            order@.len() == n,
            ord == order@.map_values(|i: usize| i as int),
            is_permutation(ord, n as int),
            j <= n,
            types@.len() == j,
            forall|m: int| 0 <= m < j ==> 0 <= ord[m] < n && is_type_of(#[trigger] types@[m], kids[ord[m]].1, *context, *path),
        decreases n - j,
    {
        let k = order[j];
        assert(ord[j as int] == k as int);
        types.push(RustType::new(children[k], context, path));
        j = j + 1;
    }
    assert(is_sorted_by(keys_of(kids), ord));
    types
}

/// The key of the child `i` of the composite node `node`.
fn node_key(node: &Ast, i: usize) -> (r: Identifier)
    requires
        node.value is Composite,
        i < node.kids().len(),
    ensures
        r@ == node.kids()[i as int].0@,
{
    match &node.value {
        crate::node_value::NodeValue::Composite { children, .. } => children[i].0.clone(),
        crate::node_value::NodeValue::Literal(_) => Identifier::TupleIndex(0),
    }
}

/// The name of the wrapper of the element `index` of a tuple: `Elem` and
/// the index.
pub open spec fn element_name_text(index: nat) -> Seq<char> {
    "Elem"@ + decimal(index)
}

/// The name of the wrapper of the element `index` of a tuple.
pub fn element_name(index: usize) -> (r: String)
    ensures
        r@ == element_name_text(index as nat),
{
    let mut r = String::new();
    push_str(&mut r, "Elem");
    push_decimal(&mut r, index);
    r
}

/// The arm of the generated `by_path` match of a tuple for its element
/// `index`: the element's wrapper takes the rest of the path.
pub open spec fn element_arm_text(index: nat) -> Seq<char> {
    "\""@ + decimal(index) + "\" => self.value."@ + decimal(index) + ".by_path(path)"@
}

/// The arm of the generated `by_path` match of a tuple for its element
/// `index` (see `element_arm_text`).
pub fn element_arm(index: usize) -> (r: String)
    ensures
        r@ == element_arm_text(index as nat),
{
    let mut r = String::new();
    push_str(&mut r, "\"");
    push_decimal(&mut r, index);
    push_str(&mut r, "\" => self.value.");
    push_decimal(&mut r, index);
    push_str(&mut r, ".by_path(path)");
    r
}

/// The length of the array that holds a list node in a `Copy` type: the
/// amount written for a repeated list, else its number of elements.
pub fn list_size(node: &Ast) -> (r: usize)
    ensures
        r == match node.value {
            NodeValue::Composite { value: crate::node_value::CompositeValue::List { amount }, .. } => amount,
            _ => node.kids().len() as usize,
        },
{
    match &node.value {
        NodeValue::Composite { value: crate::node_value::CompositeValue::List { amount }, .. } => *amount,
        NodeValue::Composite { children, .. } => children.len(),
        NodeValue::Literal(_) => 0,
    }
}

/// The expression by which a tuple's wrapper reads its element `index`
/// through the context: the tuple's access path, then the element.
pub open spec fn element_getter_text(access: Seq<char>, index: nat) -> Seq<char> {
    "self.context."@ + access + "."@ + decimal(index) + "()"@
}

/// The expression by which a tuple's wrapper reads its element `index`
/// (see `element_getter_text`).
pub fn element_getter(access: &str, index: usize) -> (r: String)
    ensures
        r@ == element_getter_text(access@, index as nat),
{
    let mut r = String::new();
    push_str(&mut r, "self.context.");
    push_str(&mut r, access);
    push_str(&mut r, ".");
    push_decimal(&mut r, index);
    push_str(&mut r, "()");
    r
}

/// The expression that wraps the element `index` of a tuple value: its
/// wrapper's constructor with the context and the element.
pub open spec fn element_init_text(index: nat) -> Seq<char> {
    element_name_text(index) + "::new(context, value."@ + decimal(index) + ")"@
}

/// The expression that wraps the element `index` of a tuple value (see
/// `element_init_text`).
pub fn element_init(index: usize) -> (r: String)
    ensures
        r@ == element_init_text(index as nat),
{
    let mut r = element_name(index);
    push_str(&mut r, "::new(context, value.");
    push_decimal(&mut r, index);
    push_str(&mut r, ")");
    r
}

} // verus!
