use vstd::prelude::*;

use crate::ast::Ast;

verus! {

/// A context of the application and its localization tree.
pub struct Context {
    pub name: String,
    pub ast: Ast,
}

/// A translation: the tree of one context.
pub struct Translation {
    pub context_name: String,
    pub ast: Ast,
}

} // verus!
