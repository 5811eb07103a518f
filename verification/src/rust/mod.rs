pub mod name;
pub mod shared;
pub mod generator;
pub mod rust_generator;
pub mod components;
pub mod initialization;
pub mod strct;
pub mod module;
pub mod ast_context;
