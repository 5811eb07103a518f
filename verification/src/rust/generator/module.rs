use vstd::prelude::*;

use crate::rust::generator::path::{mods_view, Path};
use crate::rust::shared::name::NameSnakeCase;

verus! {

/// A module of the generated code: its content and its nested modules,
/// each under its own name.
pub struct Module<C> {
    pub name: NameSnakeCase,
    pub content: Vec<C>,
    pub modules: Vec<Module<C>>,
}

/// The index of the first of `mods` named `name`, from index `i` on.
pub open spec fn child_from<C>(mods: Seq<Module<C>>, name: Seq<char>, i: int) -> Option<int>
    decreases mods.len() - i,
{
    if i < 0 || i >= mods.len() {
        None
    } else if mods[i].name@ == name {
        Some(i)
    } else {
        child_from(mods, name, i + 1)
    }
}

/// The content of the module reached from `m` through the modules named
/// `path`; none where there is no such module.
pub open spec fn contents_at<C>(m: Module<C>, path: Seq<Seq<char>>) -> Seq<C>
    decreases path.len(),
{
    if path.len() == 0 {
        m.content@
    } else {
        match child_from(m.modules@, path[0], 0) {
            Some(i) => contents_at(m.modules@[i], path.drop_first()),
            None => Seq::empty(),
        }
    }
}

/// There is a module reached from `m` through the modules named `path`.
pub open spec fn has_module<C>(m: Module<C>, path: Seq<Seq<char>>) -> bool
    decreases path.len(),
{
    if path.len() == 0 {
        true
    } else {
        match child_from(m.modules@, path[0], 0) {
            Some(i) => has_module(m.modules@[i], path.drop_first()),
            None => false,
        }
    }
}

/// `q` is a prefix of `t`.
pub open spec fn is_prefix_of(q: Seq<Seq<char>>, t: Seq<Seq<char>>) -> bool {
    q.len() <= t.len() && t.subrange(0, q.len() as int) == q
}

/// A path that starts with `t[0]` is a prefix of `t` exactly when its rest
/// is a prefix of the rest of `t`.
proof fn lemma_prefix_cons(q: Seq<Seq<char>>, t: Seq<Seq<char>>)
    requires
        q.len() > 0,
        t.len() > 0,
        q[0] == t[0],
    ensures
        is_prefix_of(q, t) == is_prefix_of(q.drop_first(), t.drop_first()),
{
    if is_prefix_of(q, t) {
        assert(t.drop_first().subrange(0, q.len() - 1) =~= t.subrange(0, q.len() as int).drop_first());
        assert(q.drop_first() =~= t.subrange(0, q.len() as int).drop_first());
    }
    if is_prefix_of(q.drop_first(), t.drop_first()) {
        assert forall|j: int| 0 <= j < q.len() implies t.subrange(0, q.len() as int)[j] == q[j] by {
            if j > 0 {
                assert(q[j] == q.drop_first()[j - 1]);
                assert(t.drop_first().subrange(0, q.len() - 1)[j - 1] == t[j]);
            }
        }
        assert(t.subrange(0, q.len() as int) =~= q);
    }
}

pub proof fn lemma_child_from<C>(mods: Seq<Module<C>>, name: Seq<char>, i: int)
    requires
        0 <= i,
    ensures
        child_from(mods, name, i) matches Some(k) ==> i <= k < mods.len() && mods[k].name@ == name,
        child_from(mods, name, i) is None ==> forall|k: int| i <= k < mods.len() ==> mods[k].name@ != name,
    decreases mods.len() - i,
{
    if i < mods.len() {
        lemma_child_from(mods, name, i + 1);
    }
}

/// Changing one module, under the same name, leaves where every name is
/// found.
pub proof fn lemma_child_from_update<C>(mods: Seq<Module<C>>, k: int, m: Module<C>, name: Seq<char>, i: int)
    requires
        0 <= i,
        0 <= k < mods.len(),
        m.name@ == mods[k].name@,
    ensures
        child_from(mods.update(k, m), name, i) == child_from(mods, name, i),
    decreases mods.len() - i,
{
    if i < mods.len() {
        lemma_child_from_update(mods, k, m, name, i + 1);
    }
}

/// Adding a module with a name not yet taken leaves where every other
/// name is found, and finds the new one at the end.
pub proof fn lemma_child_from_push<C>(mods: Seq<Module<C>>, m: Module<C>, name: Seq<char>, i: int)
    requires
        0 <= i <= mods.len(),
        child_from(mods, m.name@, i) is None,
    ensures
        name != m.name@ ==> child_from(mods.push(m), name, i) == child_from(mods, name, i),
        name == m.name@ ==> child_from(mods.push(m), name, i) == Some(mods.len() as int),
    decreases mods.len() - i,
{
    let pushed = mods.push(m);
    if i < mods.len() {
        assert(pushed[i] == mods[i]);
        lemma_child_from_push(mods, m, name, i + 1);
    } else {
        assert(pushed[i] == m);
        assert(child_from(pushed, name, i + 1) is None);
    }
}

/// A module without content or nested modules holds nothing anywhere.
pub proof fn lemma_empty_module<C>(m: Module<C>, path: Seq<Seq<char>>)
    requires
        m.content@.len() == 0,
        m.modules@.len() == 0,
    ensures
        contents_at(m, path) == Seq::<C>::empty(),
{
}

impl<C> Module<C> {
    /// The index of the first nested module named `name`.
    pub fn find_child(&self, name: &NameSnakeCase) -> (r: Option<usize>)
        ensures
            match r {
                Some(k) => child_from(self.modules@, name@, 0) == Some(k as int),
                None => child_from(self.modules@, name@, 0) is None,
            },
    {
        let mut k: usize = 0;
        while k < self.modules.len()
            invariant
                k <= self.modules@.len(),
                child_from(self.modules@, name@, 0) == child_from(self.modules@, name@, k as int),
            decreases self.modules@.len() - k,
        {
            if self.modules[k].name.0.eq(&name.0) {
                return Some(k);
            }
            k = k + 1;
        }
        None
    }

    /// An empty module.
    pub fn new(name: NameSnakeCase) -> (r: Self)
        ensures
            r.name == name,
            r.content@.len() == 0,
            r.modules@.len() == 0,
    {
        Module { name, content: Vec::new(), modules: Vec::new() }
    }

    /// Adds `content` at the end of this module's content.
    pub fn add_content(&mut self, content: C)
        ensures
            final(self).name == old(self).name,
            final(self).modules == old(self).modules,
            final(self).content@ == old(self).content@.push(content),
    {
        self.content.push(content);
    }

    /// Adds `content` to the module reached through the modules named
    /// `mods[i..]`, making the modules that are missing on the way.
    pub fn add_content_at(&mut self, mods: &Vec<NameSnakeCase>, i: usize, content: C)
        requires
            i <= mods@.len(),
        ensures
            final(self).name == old(self).name,
            contents_at(*final(self), mods_view(mods@).skip(i as int))
                == contents_at(*old(self), mods_view(mods@).skip(i as int)).push(content),
            forall|q: Seq<Seq<char>>| q != mods_view(mods@).skip(i as int)
                ==> #[trigger] contents_at(*final(self), q) == contents_at(*old(self), q),
            forall|q: Seq<Seq<char>>| #[trigger] has_module(*final(self), q)
                == (has_module(*old(self), q) || is_prefix_of(q, mods_view(mods@).skip(i as int))),
        decreases mods@.len() - i,
    {
        let ghost target = mods_view(mods@).skip(i as int);
        if i == mods.len() {
            assert(target.len() == 0);
            self.content.push(content);
            assert forall|q: Seq<Seq<char>>| q != target implies #[trigger] contents_at(*self, q) == contents_at(*old(self), q) by {
                if q.len() == 0 {
                    assert(q =~= target);
                }
            }
            assert forall|q: Seq<Seq<char>>| #[trigger] has_module(*self, q)
                == (has_module(*old(self), q) || is_prefix_of(q, target)) by {
                if q.len() > 0 {
                    assert(!is_prefix_of(q, target));
                }
            }
            return;
        }
        assert(target[0] == mods@[i as int]@);
        assert(target.drop_first() =~= mods_view(mods@).skip(i + 1));
        let ghost old_self = *self;
        let found_at = self.find_child(&mods[i]);
        let found = found_at.is_some();
        let mut k: usize = match found_at {
            Some(k) => k,
            None => 0,
        };
        proof { lemma_child_from(self.modules@, target[0], 0); }
        if !found {
            proof { lemma_child_from(self.modules@, target[0], 0); }
            let ghost before = self.modules@;
            let fresh = Module::new(NameSnakeCase(mods[i].0.clone()));
            proof { lemma_child_from_push(before, fresh, target[0], 0); }
            self.modules.push(fresh);
            k = self.modules.len() - 1;
            proof {
                assert forall|q: Seq<Seq<char>>| q.len() > 0 && q[0] != target[0]
                    implies #[trigger] contents_at(*self, q) == contents_at(old_self, q) by {
                    lemma_child_from_push(before, fresh, q[0], 0);
                    lemma_child_from(before, q[0], 0);
                    if let Some(ix) = child_from(before, q[0], 0) {
                        assert(self.modules@[ix] == before[ix]);
                    }
                }
                assert(contents_at(old_self, target) == Seq::<C>::empty());
            }
        }
        let ghost mid = *self;
        let ghost kk = k as int;
        assert(child_from(mid.modules@, target[0], 0) == Some(kk)) by {
            if found {
            }
        }
        let ghost child_before = self.modules@[kk];
        self.modules[k].add_content_at(mods, i + 1, content);
        proof {
            let child_after = self.modules@[kk];
            lemma_child_from_update(mid.modules@, kk, child_after, target[0], 0);
            assert(self.modules@ == mid.modules@.update(kk, child_after));
            assert forall|q: Seq<Seq<char>>| q != target implies #[trigger] contents_at(*self, q) == contents_at(old_self, q) by {
                if q.len() > 0 {
                    lemma_child_from_update(mid.modules@, kk, child_after, q[0], 0);
                    lemma_child_from(mid.modules@, q[0], 0);
                    if q[0] == target[0] {
                        assert(q.drop_first() != target.drop_first()) by {
                            if q.drop_first() == target.drop_first() {
                                assert(q.len() == target.len());
                                assert forall|j: int| 0 <= j < q.len() implies q[j] == target[j] by {
                                    if j > 0 {
                                        assert(q[j] == q.drop_first()[j - 1]);
                                        assert(target[j] == target.drop_first()[j - 1]);
                                    }
                                }
                                assert(q =~= target);
                            }
                        }
                        assert(contents_at(child_after, q.drop_first()) == contents_at(child_before, q.drop_first()));
                        if !found {
                            lemma_empty_module(child_before, q.drop_first());
                        }
                    } else {
                        if let Some(ix) = child_from(mid.modules@, q[0], 0) {
                            assert(ix != kk);
                            assert(self.modules@[ix] == mid.modules@[ix]);
                        }
                        assert(contents_at(mid, q) == contents_at(old_self, q));
                    }
                }
            }
            if !found {
                lemma_empty_module(child_before, target.drop_first());
            }
            assert forall|q: Seq<Seq<char>>| #[trigger] has_module(*self, q)
                == (has_module(old_self, q) || is_prefix_of(q, target)) by {
                if q.len() > 0 {
                    lemma_child_from_update(mid.modules@, kk, child_after, q[0], 0);
                    lemma_child_from(mid.modules@, q[0], 0);
                    if q[0] == target[0] {
                        lemma_prefix_cons(q, target);
                        assert(child_from(self.modules@, q[0], 0) == Some(kk));
                        assert(self.modules@[kk] == child_after);
                        assert(has_module(*self, q) == has_module(child_after, q.drop_first()));
                        if found {
                            assert(mid == old_self);
                            assert(has_module(old_self, q) == has_module(child_before, q.drop_first()));
                        }
                        if q.drop_first().len() == 0 {
                            assert(target.drop_first().subrange(0, 0) =~= q.drop_first());
                        }
                        assert(has_module(child_after, q.drop_first())
                            == (has_module(child_before, q.drop_first()) || is_prefix_of(q.drop_first(), target.drop_first())));
                        if !found {
                            assert(child_from(old_self.modules@, q[0], 0) is None);
                            if q.drop_first().len() > 0 {
                                assert(!has_module(child_before, q.drop_first()));
                                assert(is_prefix_of(q.drop_first(), target.drop_first()) ==> is_prefix_of(q, target));
                            }
                        }
                    } else {
                        assert(!is_prefix_of(q, target)) by {
                            if is_prefix_of(q, target) {
                                assert(target.subrange(0, q.len() as int)[0] == target[0]);
                            }
                        }
                        if !found {
                            lemma_child_from_push(old_self.modules@, child_before, q[0], 0);
                            lemma_child_from(old_self.modules@, q[0], 0);
                        }
                        if let Some(ix) = child_from(mid.modules@, q[0], 0) {
                            assert(ix != kk);
                            assert(self.modules@[ix] == mid.modules@[ix]);
                            if !found {
                                assert(mid.modules@[ix] == old_self.modules@[ix]);
                            }
                        }
                    }
                }
            }
        }
    }

    /// Adds `content` to the module reached through the modules of `path`
    /// (its type is not looked at), making the modules that are missing.
    pub fn add_content_by_path(&mut self, path: &Path, content: C)
        ensures
            final(self).name == old(self).name,
            contents_at(*final(self), path.mods_v()) == contents_at(*old(self), path.mods_v()).push(content),
            forall|q: Seq<Seq<char>>| q != path.mods_v() ==> #[trigger] contents_at(*final(self), q) == contents_at(*old(self), q),
            forall|q: Seq<Seq<char>>| #[trigger] has_module(*final(self), q) == (has_module(*old(self), q) || is_prefix_of(q, path.mods_v())),
    {
        let mut mods: Vec<NameSnakeCase> = Vec::new();
        let mut i: usize = 0;
        let n = path.len_mods();
        let ms = path.iter_mods();
        while i < n
            invariant
                n == path.mods_v().len(),
                mods_view(ms@) == path.mods_v(),
                ms@.len() == n,
                i <= n,
                mods@.len() == i,
                mods_view(mods@) == path.mods_v().subrange(0, i as int),
            decreases n - i,
        {
            let m = &ms[i];
            assert(mods_view(ms@)[i as int] == m@);
            let ghost prev = mods@;
            mods.push(NameSnakeCase(m.0.clone()));
            assert forall|k: int| 0 <= k < i + 1 implies #[trigger] mods_view(mods@)[k] == path.mods_v()[k] by {
                if k < i {
                    assert(mods@[k] == prev[k]);
                    assert(mods_view(prev)[k] == path.mods_v().subrange(0, i as int)[k]);
                }
            }
            assert(mods_view(mods@) =~= path.mods_v().subrange(0, i + 1));
            i = i + 1;
        }
        assert(mods_view(mods@).skip(0) =~= path.mods_v());
        self.add_content_at(&mods, 0, content);
    }
}

} // verus!
