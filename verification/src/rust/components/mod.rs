pub mod format;
pub mod use_path;
pub mod strct;
pub mod initialization;
pub mod tuple_wrapper;
