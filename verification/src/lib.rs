//! Core of the comfy i18n transpiler: the localization tree, its paths and
//! values, the format templates, the naming rules of the generated code and
//! the lookup rules (with context fallback) that the generated accessors obey.

pub mod identifier;
pub mod text;
pub mod case;
pub mod node_value;
pub mod template;
pub mod node_id;
pub mod ast;
pub mod unique_ids;
pub mod spanned_ast;
pub mod rust;
pub mod runtime;
pub mod context;
