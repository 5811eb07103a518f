use std::collections::VecDeque;

use vstd::prelude::*;

use crate::identifier::{Identifier, IdentifierView};
use crate::rust::shared::name::{
    array_index_text, pascal_text, snake_name_of, tuple_index_text, NamePascalCase, NameSnakeCase,
};
use crate::text::{decimal, push_char, push_chars, push_decimal, push_str};

verus! {

/// The path of a generated item: the modules that lead to it, and the name
/// of the type at its end, if any.
pub struct Path {
    pub mods: VecDeque<NameSnakeCase>,
    pub ty: Option<NamePascalCase>,
}

/// The names of a list of modules.
pub open spec fn mods_view(mods: Seq<NameSnakeCase>) -> Seq<Seq<char>> {
    mods.map_values(|m: NameSnakeCase| m@)
}

/// The number of positions `i < n` at which `a` and `b` hold the same name.
pub open spec fn equal_positions(a: Seq<Seq<char>>, b: Seq<Seq<char>>, n: int) -> nat
    decreases n,
{
    if n <= 0 {
        0
    } else if a[n - 1] == b[n - 1] {
        equal_positions(a, b, n - 1) + 1
    } else {
        equal_positions(a, b, n - 1)
    }
}

proof fn lemma_equal_positions_bound(a: Seq<Seq<char>>, b: Seq<Seq<char>>, n: int)
    requires
        n >= 0,
    ensures
        equal_positions(a, b, n) <= n,
    decreases n,
{
    if n > 0 {
        lemma_equal_positions_bound(a, b, n - 1);
    }
}

pub open spec fn starts_with(s: Seq<char>, prefix: Seq<char>) -> bool {
    prefix.len() <= s.len() && s.subrange(0, prefix.len() as int) == prefix
}

/// How a module name is written in an access expression: `.n()` for a
/// tuple element (`tuple_indexn`), `[n]` for an array element
/// (`array_indexn`), `.name()` otherwise.
pub open spec fn access_segment(seg: Seq<char>) -> Seq<char> {
    if starts_with(seg, tuple_index_text()) {
        seq!['.'] + seg.skip(11) + seq!['(', ')']
    } else if starts_with(seg, array_index_text()) {
        seq!['['] + seg.skip(11) + seq![']']
    } else {
        seq!['.'] + seg + seq!['(', ')']
    }
}

/// The access expression of a list of modules: their segments one after
/// the other, without the first character.
pub open spec fn access_text(mods: Seq<Seq<char>>) -> Seq<char>
    decreases mods.len(),
{
    if mods.len() == 0 {
        Seq::empty()
    } else if mods.len() == 1 {
        access_segment(mods[0]).drop_first()
    } else {
        access_text(mods.drop_last()) + access_segment(mods.last())
    }
}

/// The module names joined by `::`.
pub open spec fn joined_mods(mods: Seq<Seq<char>>) -> Seq<char>
    decreases mods.len(),
{
    if mods.len() == 0 {
        Seq::empty()
    } else if mods.len() == 1 {
        mods[0]
    } else {
        joined_mods(mods.drop_last()) + seq![':', ':'] + mods.last()
    }
}

/// A path as written in Rust: the modules joined by `::`, then the type.
pub open spec fn path_text(mods: Seq<Seq<char>>, ty: Option<Seq<char>>) -> Seq<char> {
    match ty {
        Some(t) => if mods.len() > 0 {
            joined_mods(mods) + seq![':', ':'] + t
        } else {
            t
        },
        None => joined_mods(mods),
    }
}

/// The text of a module made from an identifier of a localization path.
pub open spec fn path_part_text(id: IdentifierView) -> Seq<char> {
    match id {
        IdentifierView::Field(f) => f,
        IdentifierView::TupleIndex(i) => tuple_index_text() + decimal(i as nat),
        IdentifierView::ArrayIndex(_) => array_index_text() + seq!['0'],
    }
}

/// The modules of the generated path of the localization path `p`.
pub open spec fn gen_mods(p: Seq<IdentifierView>) -> Seq<Seq<char>> {
    p.map_values(|id: IdentifierView| snake_name_of(path_part_text(id)))
}

/// The type of the generated path of the localization path `p`: named
/// after its last identifier.
pub open spec fn gen_ty(p: Seq<IdentifierView>) -> Option<Seq<char>> {
    if p.len() == 0 {
        None
    } else {
        Some(pascal_text(snake_name_of(path_part_text(p.last()))))
    }
}

impl Path {
    pub open spec fn mods_v(&self) -> Seq<Seq<char>> {
        mods_view(self.mods@)
    }

    pub open spec fn ty_v(&self) -> Option<Seq<char>> {
        match self.ty {
            Some(t) => Some(t@),
            None => None,
        }
    }

    /// The empty path.
    pub fn root() -> (r: Self)
        ensures
            r.mods_v() == Seq::<Seq<char>>::empty(),
            r.ty is None,
    {
        let r = Path { mods: VecDeque::new(), ty: None };
        assert(r.mods_v() =~= Seq::<Seq<char>>::empty());
        r
    }

    /// The path with the module `part` in front.
    pub fn prepend_mod(self, part: NameSnakeCase) -> (r: Self)
        ensures
            r.mods_v() == seq![part@] + self.mods_v(),
            r.ty_v() == self.ty_v(),
    {
        let mut p = self;
        let ghost m = p.mods_v();
        p.mods.push_front(part);
        assert(p.mods_v() =~= seq![part@] + m);
        p
    }

    /// The path with the module `part` at the end.
    pub fn add_mod(self, part: NameSnakeCase) -> (r: Self)
        ensures
            r.mods_v() == self.mods_v().push(part@),
            r.ty_v() == self.ty_v(),
    {
        let mut p = self;
        let ghost m = p.mods_v();
        p.mods.push_back(part);
        assert(p.mods_v() =~= m.push(part@));
        p
    }

    /// The type at the end of the path, if any.
    pub fn ty(&self) -> (r: Option<&NamePascalCase>)
        ensures
            match r {
                Some(t) => self.ty_v() == Some(t@),
                None => self.ty is None,
            },
    {
        self.ty.as_ref()
    }

    /// The path with the type `ty` at its end.
    pub fn set_ty(self, ty: NamePascalCase) -> (r: Self)
        ensures
            r.mods_v() == self.mods_v(),
            r.ty_v() == Some(ty@),
    {
        let mut p = self;
        p.ty = Some(ty);
        p
    }

    /// The path leads through no module.
    pub fn has_no_mods(&self) -> (r: bool)
        ensures
            r == (self.mods_v().len() == 0),
    {
        self.mods.len() == 0
    }

    /// Takes the first module off the path.
    pub fn pop_front(&mut self) -> (r: Option<NameSnakeCase>)
        ensures
            old(self).mods_v().len() == 0 ==> r is None && final(self).mods_v() == old(self).mods_v(),
            old(self).mods_v().len() > 0 ==> (r matches Some(m) && m@ == old(self).mods_v()[0]
                && final(self).mods_v() == old(self).mods_v().drop_first()),
            final(self).ty_v() == old(self).ty_v(),
    {
        let ghost m = self.mods_v();
        let r = self.mods.pop_front();
        assert(old(self).mods_v().len() > 0 ==> self.mods_v() =~= m.drop_first());
        r
    }

    /// The modules of the path, in order.
    pub fn iter_mods(&self) -> (r: &VecDeque<NameSnakeCase>)
        ensures
            mods_view(r@) == self.mods_v(),
    {
        &self.mods
    }

    /// The number of modules of the path.
    pub fn len_mods(&self) -> (r: usize)
        ensures
            r == self.mods_v().len(),
    {
        self.mods.len()
    }

    /// The last module of the path, if any.
    pub fn last_mod(&self) -> (r: Option<&NameSnakeCase>)
        ensures
            self.mods_v().len() == 0 ==> r is None,
            self.mods_v().len() > 0 ==> (r matches Some(m) && m@ == self.mods_v().last()),
    {
        let n = self.mods.len();
        if n == 0 {
            None
        } else {
            Some(&self.mods[n - 1])
        }
    }

    /// The path seen from `other_path`: one module taken off its front for
    /// each position at which both paths hold the same module.
    pub fn relative_to(&self, other_path: &Self) -> (r: Self)
        ensures
            r.mods_v() == self.mods_v().skip(equal_positions(
                other_path.mods_v(),
                self.mods_v(),
                if other_path.mods_v().len() < self.mods_v().len() { other_path.mods_v().len() as int } else { self.mods_v().len() as int },
            ) as int),
            r.ty_v() == self.ty_v(),
    {
        let mut new_path = self.clone();
        let n = if other_path.mods.len() < self.mods.len() { other_path.mods.len() } else { self.mods.len() };
        let ghost a = other_path.mods_v();
        let ghost b = self.mods_v();
        let mut i: usize = 0;
        while i < n
            invariant
                n <= a.len(),
                n <= b.len(),
                a == other_path.mods_v(),
                b == self.mods_v(),
                i <= n,
                equal_positions(a, b, i as int) <= i,
                new_path.mods_v() == b.skip(equal_positions(a, b, i as int) as int),
                new_path.ty_v() == self.ty_v(),
            decreases n - i,
        {
            if other_path.mods[i] == self.mods[i] {
                assert(a[i as int] == b[i as int]);
                let ghost before = new_path.mods_v();
                new_path.pop_front();
                assert(b.skip(equal_positions(a, b, i as int) as int).drop_first() =~= b.skip((equal_positions(a, b, i as int) + 1) as int));
            } else {
                assert(a[i as int] != b[i as int]);
            }
            i = i + 1;
        }
        new_path
    }

    /// The expression that reaches the item of this path from a value of
    /// the root type: a call for each module, an index for each array
    /// element (see `access_text`).
    pub fn to_access_path(&self) -> (r: String)
        ensures
            r@ == access_text(self.mods_v()),
    {
        let mut acc = String::new();
        let mut i: usize = 0;
        while i < self.mods.len()
            invariant
                i <= self.mods_v().len(),
                acc@ == access_text(self.mods_v().subrange(0, i as int)),
            decreases self.mods_v().len() - i,
        {
            let seg = &self.mods[i];
            let ghost sv = seg@;
            assert(self.mods_v()[i as int] == sv);
            let mut piece = String::new();
            write_access_segment(&mut piece, seg.as_str());
            assert(self.mods_v().subrange(0, i + 1).drop_last() =~= self.mods_v().subrange(0, i as int));
            if i == 0 {
                let cs = crate::text::chars_of(piece.as_str());
                let mut k: usize = 1;
                while k < cs.len()
                    invariant
                        1 <= k <= cs@.len(),
                        cs@.len() >= 1,
                        acc@ == cs@.subrange(1, k as int),
                    decreases cs@.len() - k,
                {
                    push_char(&mut acc, cs[k]);
                    k = k + 1;
                }
                assert(cs@.subrange(1, cs@.len() as int) =~= cs@.drop_first());
                assert(self.mods_v().subrange(0, 1)[0] == sv);
            } else {
                push_str(&mut acc, piece.as_str());
            }
            i = i + 1;
        }
        assert(self.mods_v().subrange(0, self.mods_v().len() as int) =~= self.mods_v());
        acc
    }

    /// The path as written in Rust: the modules joined by `::`, then the
    /// type.
    pub fn to_text(&self) -> (r: String)
        ensures
            r@ == path_text(self.mods_v(), self.ty_v()),
    {
        let mut out = String::new();
        let mut i: usize = 0;
        while i < self.mods.len()
            invariant
                i <= self.mods_v().len(),
                out@ == joined_mods(self.mods_v().subrange(0, i as int)),
            decreases self.mods_v().len() - i,
        {
            assert(self.mods_v().subrange(0, i + 1).drop_last() =~= self.mods_v().subrange(0, i as int));
            if i > 0 {
                push_char(&mut out, ':');
                push_char(&mut out, ':');
            }
            push_str(&mut out, self.mods[i].as_str());
            assert(self.mods_v().subrange(0, i + 1).last() == self.mods_v()[i as int]);
            i = i + 1;
        }
        assert(self.mods_v().subrange(0, self.mods_v().len() as int) =~= self.mods_v());
        match &self.ty {
            Some(t) => {
                if self.mods.len() > 0 {
                    push_char(&mut out, ':');
                    push_char(&mut out, ':');
                }
                push_str(&mut out, t.as_str());
            },
            None => {},
        }
        out
    }

    /// The generated path of the node at the localization path `value`:
    /// a module for each identifier, and the type named after the last one.
    pub fn from_ast_path(value: crate::identifier::Path) -> (r: Self)
        ensures
            r.mods_v() == gen_mods(value@),
            r.ty_v() == gen_ty(value@),
    {
        let ids = value.iter();
        let n = ids.len();
        let mut acc = Path::root();
        let mut i: usize = 0;
        while i < n
            invariant
                n == ids@.len(),
                ids@ == value.0@,
                i <= n,
                acc.mods_v().len() == i,
                forall|k: int| 0 <= k < i ==> #[trigger] acc.mods_v()[k] == snake_name_of(path_part_text(value@[k])),
                i == 0 ==> acc.ty is None,
                i > 0 && i < n ==> acc.ty is None,
                i == n && n > 0 ==> acc.ty_v() == gen_ty(value@),
            decreases n - i,
        {
            let mut part = String::new();
            match &ids[i] {
                Identifier::Field(field) => push_str(&mut part, field.as_str()),
                Identifier::TupleIndex(index) => {
                    push_chars(&mut part, &['t', 'u', 'p', 'l', 'e', '_', 'i', 'n', 'd', 'e', 'x']);
                    push_decimal(&mut part, *index);
                },
                Identifier::ArrayIndex(_) => {
                    push_chars(&mut part, &['a', 'r', 'r', 'a', 'y', '_', 'i', 'n', 'd', 'e', 'x', '0']);
                },
            }
            assert(part@ =~= path_part_text(ids@[i as int]@));
            assert(value@[i as int] == ids@[i as int]@);
            let name = NameSnakeCase::from_string(part.clone());
            acc = acc.add_mod(name);
            if i == n - 1 {
                acc = acc.set_ty(NameSnakeCase::from_string(part).to_pascal_case());
            }
            i = i + 1;
        }
        assert(acc.mods_v() =~= gen_mods(value@));
        acc
    }
}

impl Clone for Path {
    fn clone(&self) -> (r: Self)
        ensures
            r.mods_v() == self.mods_v(),
            r.ty_v() == self.ty_v(),
    {
        let mut mods: VecDeque<NameSnakeCase> = VecDeque::new();
        let mut i: usize = 0;
        while i < self.mods.len()
            invariant
                i <= self.mods_v().len(),
                mods_view(mods@) == self.mods_v().subrange(0, i as int),
            decreases self.mods_v().len() - i,
        {
            let ghost before = mods@;
            mods.push_back(self.mods[i].clone());
            assert(mods_view(mods@) =~= mods_view(before).push(self.mods_v()[i as int]));
            i = i + 1;
        }
        assert(self.mods_v().subrange(0, self.mods_v().len() as int) =~= self.mods_v());
        let ty = match &self.ty {
            Some(t) => Some(t.clone()),
            None => None,
        };
        Path { mods, ty }
    }
}

/// Appends the access segment of the module `seg`.
fn write_access_segment(out: &mut String, seg: &str)
    ensures
        final(out)@ == old(out)@ + access_segment(seg@),
{
    let cs = crate::text::chars_of(seg);
    let tuple_prefix = ['t', 'u', 'p', 'l', 'e', '_', 'i', 'n', 'd', 'e', 'x'];
    let array_prefix = ['a', 'r', 'r', 'a', 'y', '_', 'i', 'n', 'd', 'e', 'x'];
    assert(tuple_prefix@ =~= tuple_index_text());
    assert(array_prefix@ =~= array_index_text());
    let ghost start = out@;
    if has_prefix(cs.as_slice(), &tuple_prefix) {
        push_char(out, '.');
        push_tail(out, cs.as_slice(), 11);
        push_char(out, '(');
        push_char(out, ')');
        assert(out@ =~= start + access_segment(seg@));
    } else if has_prefix(cs.as_slice(), &array_prefix) {
        push_char(out, '[');
        push_tail(out, cs.as_slice(), 11);
        push_char(out, ']');
        assert(out@ =~= start + access_segment(seg@));
    } else {
        push_char(out, '.');
        push_str(out, seg);
        push_char(out, '(');
        push_char(out, ')');
        assert(out@ =~= start + access_segment(seg@));
    }
}

fn has_prefix(s: &[char], prefix: &[char]) -> (r: bool)
    ensures
        r == starts_with(s@, prefix@),
{
    if prefix.len() > s.len() {
        return false;
    }
    let mut i: usize = 0;
    while i < prefix.len()
        invariant
            prefix@.len() <= s@.len(),
            i <= prefix@.len(),
            forall|j: int| 0 <= j < i ==> s@[j] == prefix@[j],
        decreases prefix@.len() - i,
    {
        if s[i] != prefix[i] {
            assert(s@.subrange(0, prefix@.len() as int)[i as int] != prefix@[i as int]);
            return false;
        }
        i = i + 1;
    }
    assert(s@.subrange(0, prefix@.len() as int) =~= prefix@);
    true
}

fn push_tail(out: &mut String, s: &[char], from: usize)
    requires
        from <= s@.len(),
    ensures
        final(out)@ == old(out)@ + s@.skip(from as int),
{
    let ghost start = out@;
    let mut i: usize = from;
    while i < s.len()
        invariant
            from <= i <= s@.len(),
            out@ == start + s@.subrange(from as int, i as int),
        decreases s@.len() - i,
    {
        push_char(out, s[i]);
        i = i + 1;
        assert(s@.subrange(from as int, i as int) =~= s@.subrange(from as int, i - 1).push(s@[i - 1]));
    }
    assert(s@.subrange(from as int, s@.len() as int) =~= s@.skip(from as int));
}

/// Every position of a list of modules agrees with itself.
proof fn lemma_equal_positions_self(a: Seq<Seq<char>>, n: int)
    requires
        n >= 0,
    ensures
        equal_positions(a, a, n) == n,
    decreases n,
{
    if n > 0 {
        lemma_equal_positions_self(a, n - 1);
    }
}

/// A path seen from itself leads through no module and keeps its type.
pub proof fn law_relative_to_itself(p: Path)
    ensures
        p.mods_v().skip(equal_positions(p.mods_v(), p.mods_v(), p.mods_v().len() as int) as int) == Seq::<Seq<char>>::empty(),
{
    lemma_equal_positions_self(p.mods_v(), p.mods_v().len() as int);
    assert(p.mods_v().skip(p.mods_v().len() as int) =~= Seq::<Seq<char>>::empty());
}

/// `s` without a call `()` at its end, where it ends with one.
pub open spec fn without_call_text(s: Seq<char>) -> Seq<char> {
    if s.len() >= 2 && s[s.len() - 2] == '(' && s[s.len() - 1] == ')' {
        s.subrange(0, s.len() - 2)
    } else {
        s
    }
}

/// `s` without a call `()` at its end (see `without_call_text`): the
/// accessor of a value that the generated code calls itself.
pub fn without_call(s: &str) -> (r: String)
    ensures
        r@ == without_call_text(s@),
{
    let cs = crate::text::chars_of(s);
    let n = cs.len();
    let end = if n >= 2 && cs[n - 2] == '(' && cs[n - 1] == ')' { n - 2 } else { n };
    let mut r = String::new();
    let mut i: usize = 0;
    while i < end
        invariant
            cs@ == s@,
            end <= cs@.len(),
            i <= end,
            r@ == cs@.subrange(0, i as int),
        decreases end - i,
    {
        push_char(&mut r, cs[i]);
        assert(cs@.subrange(0, i + 1) =~= cs@.subrange(0, i as int).push(cs@[i as int]));
        i = i + 1;
    }
    assert(cs@.subrange(0, cs@.len() as int) =~= cs@);
    r
}

} // verus!
