use vstd::prelude::*;

use crate::text::string_of;

verus! {

/// How a generated item is declared.
#[derive(Debug, Clone, Copy, PartialEq, Eq, Structural)]
pub enum VariableType {
    Const,
    Static,
}

/// The keyword that declares an item of the variable type `v`.
pub open spec fn keyword_text(v: VariableType) -> Seq<char> {
    match v {
        VariableType::Const => seq!['c', 'o', 'n', 's', 't'],
        VariableType::Static => seq!['s', 't', 'a', 't', 'i', 'c'],
    }
}

impl VariableType {
    /// The keyword of the declaration: `const` or `static`.
    pub fn keyword(&self) -> (r: String)
        ensures
            r@ == keyword_text(*self),
    {
        match self {
            VariableType::Const => string_of(&['c', 'o', 'n', 's', 't']),
            VariableType::Static => string_of(&['s', 't', 'a', 't', 'i', 'c']),
        }
    }
}

} // verus!
