use vstd::prelude::*;

use crate::node_value::{FloatValue, IntegerValue};
use crate::case::lowercase;
use crate::rust::name::{NamePascalCase, NameSnakeCase};
use crate::rust::shared::name::{pascal_text, split_parts};
use crate::rust::strct::RustType;
use crate::template::Template;
use crate::text::string_of;

verus! {

/// How a generated item is declared.
#[derive(Debug, Clone, Copy, PartialEq, Eq, Structural)]
pub enum VariableType {
    Const,
    Static,
}

/// The keyword that declares an item of the variable type `v`.
pub open spec fn keyword_text(v: VariableType) -> Seq<char> {
    match v {
        VariableType::Const => seq!['c', 'o', 'n', 's', 't'],
        VariableType::Static => seq!['s', 't', 'a', 't', 'i', 'c'],
    }
}

impl VariableType {
    /// The keyword of the declaration: `const` or `static`.
    pub fn keyword(&self) -> (r: String)
        ensures
            r@ == keyword_text(*self),
    {
        match self {
            VariableType::Const => string_of(&['c', 'o', 'n', 's', 't']),
            VariableType::Static => string_of(&['s', 't', 'a', 't', 'i', 'c']),
        }
    }
}

/// A field of a generated struct value: its name and value.
pub struct FieldValue {
    pub name: NameSnakeCase,
    pub value: RustValue,
}

/// A value of the first form of the generated code.
pub enum RustValue {
    String(String),
    Format { name: NamePascalCase, template: Template },
    Char(char),
    Float(FloatValue),
    Integer(IntegerValue),
    Bool(bool),
    Reference { var_ty: VariableType, mod_name: NameSnakeCase, var_name: NameSnakeCase },
    Struct { mod_names: Vec<NameSnakeCase>, name: NamePascalCase, fields: Vec<FieldValue> },
    Tuple(Vec<RustValue>),
    ListRepeated { value: Box<RustValue>, amount: usize },
    List(Vec<RustValue>),
}

/// A declaration of the generated code: a constant or static of a type,
/// with its value.
pub struct Initialization {
    pub var_ty: VariableType,
    pub ty: RustType,
    pub name: NameSnakeCase,
    pub value: RustValue,
}

/// `b` is the struct declaration `a` renamed after the module `name`.
pub open spec fn initialization_renamed(a: Initialization, b: Initialization, name: Seq<char>) -> bool {
    &&& b.var_ty == a.var_ty
    &&& b.name@ == lowercase(name + seq!['_'] + lowercase(split_parts(a.name@, '_').last()))
    &&& b.ty matches RustType::Struct { mod_names, name: n } && mod_names@.len() == 0 && n@ == pascal_text(name)
    &&& b.value matches RustValue::Struct { mod_names, name: n, fields }
        && mod_names@.len() == 0 && n@ == pascal_text(name) && fields == a.value->fields
}

impl Initialization {
    /// Renames a struct declaration after the module `name`: the name
    /// becomes `name` joined to the last part of the old name (the
    /// context), the type and the value's struct are named after `name`
    /// in `PascalCase`, without modules; the value keeps its fields.
    pub fn rename(&mut self, name: NameSnakeCase)
        requires
            old(self).ty is Struct,
            old(self).value is Struct,
        ensures
            initialization_renamed(*old(self), *final(self), name@),
    {
        let context = crate::rust::shared::name::NameSnakeCase(self.name.0.clone()).last_part();
        let ghost old_fields = self.value->fields;
        self.name = NameSnakeCase(name.0.clone()).concat(NameSnakeCase::from_string(context));
        let pascal = name.to_pascal_case();
        self.ty = RustType::Struct { mod_names: Vec::new(), name: NamePascalCase(pascal.0.clone()) };
        let mut value = RustValue::List(Vec::new());
        std::mem::swap(&mut value, &mut self.value);
        match value {
            RustValue::Struct { fields, .. } => {
                self.value = RustValue::Struct { mod_names: Vec::new(), name: pascal, fields };
            },
            other => {
                self.value = other;
            },
        }
    }
}

} // verus!
