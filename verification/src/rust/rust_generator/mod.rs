pub mod context;
pub mod var_ty;
pub mod ty;
pub mod value;
pub mod generator;
