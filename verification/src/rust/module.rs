use vstd::prelude::*;

use crate::rust::initialization::{initialization_renamed, Initialization, RustValue};
use crate::rust::name::NameSnakeCase;
use crate::rust::strct::{variation_renamed, RustType, StructVariation};

verus! {

/// A module of the first form of the generated code: its structs, its
/// declarations and its nested modules.
pub struct Module {
    pub name: NameSnakeCase,
    pub strcts: Vec<StructVariation>,
    pub initializations: Vec<Initialization>,
    pub modules: Vec<Module>,
}

/// The module holds nothing, nor do its nested modules.
pub open spec fn module_empty(m: Module) -> bool
    decreases m,
{
    &&& m.strcts@.len() == 0
    &&& m.initializations@.len() == 0
    &&& forall|i: int| 0 <= i < m.modules@.len() ==> module_empty(#[trigger] m.modules@[i])
}

impl Module {
    /// An empty module.
    pub fn new(name: NameSnakeCase) -> (r: Self)
        ensures
            r.name == name,
            r.strcts@.len() == 0,
            r.initializations@.len() == 0,
            r.modules@.len() == 0,
    {
        Module { name, strcts: Vec::new(), initializations: Vec::new(), modules: Vec::new() }
    }

    /// The module holds nothing, nor do its nested modules.
    pub fn is_empty(&self) -> (r: bool)
        ensures
            r == module_empty(*self),
        decreases self,
    {
        if self.strcts.len() > 0 || self.initializations.len() > 0 {
            return false;
        }
        let mut i: usize = 0;
        while i < self.modules.len()
            invariant
                i <= self.modules@.len(),
                forall|k: int| 0 <= k < i ==> module_empty(#[trigger] self.modules@[k]),
            decreases self.modules@.len() - i,
        {
            assert(decreases_to!(self => self.modules));
            assert(decreases_to!(self.modules => self.modules@));
            assert(decreases_to!(self.modules@ => self.modules@[i as int]));
            if !self.modules[i].is_empty() {
                return false;
            }
            i = i + 1;
        }
        true
    }

    /// Renames the module and, after it, its structs and its declarations.
    pub fn rename(&mut self, name: NameSnakeCase)
        requires
            forall|i: int| 0 <= i < old(self).initializations@.len()
                ==> (#[trigger] old(self).initializations@[i]).ty is Struct && old(self).initializations@[i].value is Struct,
        ensures
            final(self).name@ == name@,
            final(self).modules == old(self).modules,
            final(self).strcts@.len() == old(self).strcts@.len(),
            forall|k: int| 0 <= k < final(self).strcts@.len()
                ==> variation_renamed(old(self).strcts@[k], #[trigger] final(self).strcts@[k], name@),
            final(self).initializations@.len() == old(self).initializations@.len(),
            forall|k: int| 0 <= k < final(self).initializations@.len()
                ==> initialization_renamed(old(self).initializations@[k], #[trigger] final(self).initializations@[k], name@),
    {
        self.name = NameSnakeCase(name.0.clone());
        let mut i: usize = 0;
        while i < self.strcts.len()
            invariant
                i <= self.strcts@.len(),
                self.name@ == name@,
                self.modules == old(self).modules,
                self.strcts@.len() == old(self).strcts@.len(),
                forall|k: int| 0 <= k < i ==> variation_renamed(old(self).strcts@[k], #[trigger] self.strcts@[k], name@),
                forall|k: int| i <= k < self.strcts@.len() ==> #[trigger] self.strcts@[k] == old(self).strcts@[k],
                self.initializations == old(self).initializations,
            decreases self.strcts@.len() - i,
        {
            self.strcts[i].rename_strct_name(NameSnakeCase(name.0.clone()));
            i = i + 1;
        }
        let mut i: usize = 0;
        while i < self.initializations.len()
            invariant
                i <= self.initializations@.len(),
                self.name@ == name@,
                self.modules == old(self).modules,
                self.strcts@.len() == old(self).strcts@.len(),
                forall|k: int| 0 <= k < self.strcts@.len() ==> variation_renamed(old(self).strcts@[k], #[trigger] self.strcts@[k], name@),
                self.initializations@.len() == old(self).initializations@.len(),
                forall|k: int| 0 <= k < i ==> initialization_renamed(old(self).initializations@[k], #[trigger] self.initializations@[k], name@),
                forall|k: int| i <= k < self.initializations@.len() ==> #[trigger] self.initializations@[k] == old(self).initializations@[k],
                forall|k: int| i <= k < self.initializations@.len()
                    ==> (#[trigger] self.initializations@[k]).ty is Struct && self.initializations@[k].value is Struct,
            decreases self.initializations@.len() - i,
        {
            self.initializations[i].rename(NameSnakeCase(name.0.clone()));
            i = i + 1;
        }
    }
}

} // verus!
