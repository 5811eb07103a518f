pub mod name;

pub use name::{NamePascalCase, NameSnakeCase};
