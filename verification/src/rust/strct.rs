use vstd::prelude::*;

use crate::rust::name::{NamePascalCase, NameSnakeCase};
use crate::rust::shared::name::pascal_text;
use crate::template::Template;

verus! {

/// A formatter struct of the generated code: its name, its template and the
/// struct it refers to, once that is known.
pub struct Format {
    pub name: NamePascalCase,
    pub template: Template,
    pub ref_strct: Option<NamePascalCase>,
}

impl Format {
    /// Names the struct the formatter refers to.
    pub fn rename_ref_strct(&mut self, name: NamePascalCase)
        ensures
            final(self).ref_strct == Some(name),
            final(self).name == old(self).name,
            final(self).template == old(self).template,
    {
        self.ref_strct = Some(name);
    }
}

/// The Rust type of a field in the first form of the generated code.
pub enum RustType {
    String,
    Format { name: NamePascalCase },
    Char,
    Bool,
    Float { bits: u8 },
    Integer { unsigned: bool, bits: u8 },
    Tuple(Vec<RustType>),
    List { ty: Box<RustType>, amount: Option<usize> },
    Struct { mod_names: Vec<NameSnakeCase>, name: NamePascalCase },
    Other { mod_names: Vec<NameSnakeCase>, name: NamePascalCase },
}

/// A field of a generated struct.
pub struct Field {
    pub name: NameSnakeCase,
    pub ty: RustType,
}

/// A generated struct.
pub struct Struct {
    pub name: NamePascalCase,
    pub fields: Vec<Field>,
}

impl Struct {
    /// A struct without fields.
    pub fn new(name: NamePascalCase) -> (r: Self)
        ensures
            r.name == name,
            r.fields@.len() == 0,
    {
        Struct { name, fields: Vec::new() }
    }

    /// The struct with the fields `fields`.
    pub fn with_fields(self, fields: Vec<Field>) -> (r: Self)
        ensures
            r.name == self.name,
            r.fields == fields,
    {
        let mut s = self;
        s.fields = fields;
        s
    }

    /// The struct has no field (and is not generated).
    pub fn is_empty(&self) -> (r: bool)
        ensures
            r == (self.fields@.len() == 0),
    {
        self.fields.len() == 0
    }

    /// Renames the struct.
    pub fn rename(&mut self, name: NamePascalCase)
        ensures
            final(self).name == name,
            final(self).fields == old(self).fields,
    {
        self.name = name;
    }
}

/// `b` is `a` renamed after `name`: a formatter refers to the struct named
/// after it, a struct is named after it.
pub open spec fn variation_renamed(a: StructVariation, b: StructVariation, name: Seq<char>) -> bool {
    match (a, b) {
        (StructVariation::Format(x), StructVariation::Format(y)) =>
            y.ref_strct matches Some(n) && n@ == pascal_text(name) && y.name == x.name && y.template == x.template,
        (StructVariation::Struct(x), StructVariation::Struct(y)) => y.name@ == pascal_text(name) && y.fields == x.fields,
        _ => false,
    }
}

/// A struct or a formatter of a module.
pub enum StructVariation {
    Format(Format),
    Struct(Struct),
}

impl StructVariation {
    /// Renames the struct (a formatter: the struct it refers to) after the
    /// name `name` in `PascalCase`.
    pub fn rename_strct_name(&mut self, name: NameSnakeCase)
        ensures
            variation_renamed(*old(self), *final(self), name@),
    {
        match self {
            StructVariation::Format(format) => format.rename_ref_strct(name.to_pascal_case()),
            StructVariation::Struct(strct) => strct.rename(name.to_pascal_case()),
        }
    }
}

} // verus!
