use vstd::prelude::*;

use crate::rust::generator::path::Path;
use crate::rust::rust_generator::value::RustValue;
use crate::rust::rust_generator::var_ty::VariableType;
use crate::rust::shared::name::NameSnakeCase;

verus! {

/// A declaration of the generated code: a constant or static of a type,
/// with its value.
pub struct Initialization {
    pub var_ty: VariableType,
    pub ty: Path,
    pub name: NameSnakeCase,
    pub value: RustValue,
}

impl Initialization {
    /// The declaration with its parts.
    pub fn new(var_ty: VariableType, ty: Path, name: NameSnakeCase, value: RustValue) -> (r: Self)
        ensures
            r.var_ty == var_ty,
            r.ty == ty,
            r.name == name,
            r.value == value,
    {
        Initialization { var_ty, ty, name, value }
    }

    /// A constant declaration.
    pub fn new_const(ty: Path, name: NameSnakeCase, value: RustValue) -> (r: Self)
        ensures
            r.var_ty == VariableType::Const,
            r.ty == ty,
            r.name == name,
            r.value == value,
    {
        Self::new(VariableType::Const, ty, name, value)
    }
}

} // verus!
