use vstd::prelude::*;

use crate::rust::generator::path::Path;

verus! {

/// A `use` declaration of a generated path.
pub struct UsePath(pub Path);

impl UsePath {
    /// The declaration that brings `path` into scope.
    pub fn new(path: Path) -> (r: Self)
        ensures
            r.0 == path,
    {
        UsePath(path)
    }
}

} // verus!
