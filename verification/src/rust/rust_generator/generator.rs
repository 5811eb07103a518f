use vstd::prelude::*;

use crate::rust::generator::module::{contents_at, Module};
use crate::rust::generator::path::Path;
use crate::rust::shared::name::NameSnakeCase;

verus! {

/// The generated code of a component as a tree of modules, filled piece
/// by piece.
pub struct RustGenerator<C> {
    pub root: Module<C>,
}

impl<C> RustGenerator<C> {
    /// An empty root module named `root_name`.
    pub fn new(root_name: NameSnakeCase) -> (r: Self)
        ensures
            r.root.name == root_name,
            r.root.content@.len() == 0,
            r.root.modules@.len() == 0,
    {
        RustGenerator { root: Module::new(root_name) }
    }

    /// Adds `content` to the module reached through the modules of `path`,
    /// making the modules that are missing.
    pub fn add_content(&mut self, path: Path, content: C)
        ensures
            final(self).root.name == old(self).root.name,
            contents_at(final(self).root, path.mods_v()) == contents_at(old(self).root, path.mods_v()).push(content),
            forall|q: Seq<Seq<char>>| q != path.mods_v() ==> #[trigger] contents_at(final(self).root, q) == contents_at(old(self).root, q),
    {
        if path.has_no_mods() {
            self.root.add_content(content);
            assert forall|q: Seq<Seq<char>>| q != path.mods_v() implies #[trigger] contents_at(self.root, q) == contents_at(old(self).root, q) by {
                if q.len() == 0 {
                    assert(q =~= path.mods_v());
                }
            }
        } else {
            self.root.add_content_by_path(&path, content);
        }
    }

    /// Adds `content` to the root module.
    pub fn add_root_content(&mut self, content: C)
        ensures
            final(self).root.name == old(self).root.name,
            contents_at(final(self).root, Seq::empty()) == contents_at(old(self).root, Seq::empty()).push(content),
            forall|q: Seq<Seq<char>>| q != Seq::<Seq<char>>::empty() ==> #[trigger] contents_at(final(self).root, q) == contents_at(old(self).root, q),
    {
        let root = Path::root();
        self.add_content(root, content);
    }

    /// Adds each of `contents`, in order, to the module of `path`.
    pub fn add_contents(&mut self, path: Path, contents: Vec<C>)
        ensures
            final(self).root.name == old(self).root.name,
            contents_at(final(self).root, path.mods_v()) == contents_at(old(self).root, path.mods_v()) + contents@,
            forall|q: Seq<Seq<char>>| q != path.mods_v() ==> #[trigger] contents_at(final(self).root, q) == contents_at(old(self).root, q),
    {
        let ghost all = contents@;
        let ghost start = contents_at(self.root, path.mods_v());
        let mut rest = contents;
        let mut done: usize = 0;
        let total = rest.len();
        while rest.len() > 0
            invariant
                all.len() == total,
                self.root.name == old(self).root.name,
                done + rest@.len() == all.len(),
                rest@ == all.subrange(done as int, all.len() as int),
                contents_at(self.root, path.mods_v()) == start + all.subrange(0, done as int),
                forall|q: Seq<Seq<char>>| q != path.mods_v() ==> #[trigger] contents_at(self.root, q) == contents_at(old(self).root, q),
            decreases rest@.len(),
        {
            let c = rest.remove(0);
            assert(c == all[done as int]);
            let p = path.clone();
            self.add_content_same(p, &path, c);
            assert(all.subrange(0, done + 1) =~= all.subrange(0, done as int).push(all[done as int]));
            done = done + 1;
            assert(rest@ =~= all.subrange(done as int, all.len() as int));
        }
        assert(all.subrange(0, all.len() as int) =~= all);
    }

    /// `add_content` with a copy `p` of `path`.
    fn add_content_same(&mut self, p: Path, path: &Path, content: C)
        requires
            p.mods_v() == path.mods_v(),
        ensures
            final(self).root.name == old(self).root.name,
            contents_at(final(self).root, path.mods_v()) == contents_at(old(self).root, path.mods_v()).push(content),
            forall|q: Seq<Seq<char>>| q != path.mods_v() ==> #[trigger] contents_at(final(self).root, q) == contents_at(old(self).root, q),
    {
        self.add_content(p, content);
    }

    /// Adds each of `contents`, in order, to the root module.
    pub fn add_root_contents(&mut self, contents: Vec<C>)
        ensures
            final(self).root.name == old(self).root.name,
            contents_at(final(self).root, Seq::empty()) == contents_at(old(self).root, Seq::empty()) + contents@,
            forall|q: Seq<Seq<char>>| q != Seq::<Seq<char>>::empty() ==> #[trigger] contents_at(final(self).root, q) == contents_at(old(self).root, q),
    {
        let root = Path::root();
        self.add_contents(root, contents);
    }
}

} // verus!
