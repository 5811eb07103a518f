pub mod path;
pub mod context;
pub mod module;
