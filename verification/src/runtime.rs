use vstd::prelude::*;

use crate::ast::{ids_view, Ast};
use crate::identifier::{Identifier, IdentifierView, Path as AstPath};
use crate::node_value::{LiteralValue, NodeValue, StringValue};
use crate::template::{piece_text, template_text, writable_template, ArgumentKey, ArgumentName, AstRefOrigin, NameRef, Piece, Template};
use crate::text::{chars_of, push_char, push_str};
use crate::rust::rust_generator::context::{first_with_identifier, lemma_first_with_identifier};

verus! {

/// A context of the application (a variant of the generated context enum),
/// with whether it is the one to fall back to.
pub struct ContextDecl {
    pub name: String,
    pub fallback: bool,
}

/// The contexts of an application, in their declared order; a context is
/// addressed by its index.
pub struct I18n {
    pub contexts: Vec<ContextDecl>,
}

/// The localizations of one component, each under its context's name.
pub struct Component {
    pub name: String,
    pub localizations: Vec<Ast>,
}

/// The contexts and the components of an application.
pub struct Translations {
    pub i18n: I18n,
    pub components: Vec<Component>,
}

/// Whether the context at each index is marked as the fallback.
pub open spec fn fallback_flags(contexts: Seq<ContextDecl>) -> Seq<bool> {
    contexts.map_values(|c: ContextDecl| c.fallback)
}

/// The first entry of `available`, from index `i` on, that names a context
/// marked as the fallback.
pub open spec fn first_marked_from(flags: Seq<bool>, available: Seq<Option<usize>>, i: int) -> Option<usize>
    decreases available.len() - i,
{
    if i < 0 || i >= available.len() {
        None
    } else {
        match available[i] {
            Some(k) => if k < flags.len() && flags[k as int] {
                Some(k)
            } else {
                first_marked_from(flags, available, i + 1)
            },
            None => first_marked_from(flags, available, i + 1),
        }
    }
}

/// The first context named in `available`, from index `i` on.
pub open spec fn first_present_from(available: Seq<Option<usize>>, i: int) -> Option<usize>
    decreases available.len() - i,
{
    if i < 0 || i >= available.len() {
        None
    } else {
        match available[i] {
            Some(k) => Some(k),
            None => first_present_from(available, i + 1),
        }
    }
}

/// The context that `key` falls back to, given the contexts `available`
/// for a value: `key` itself where it is available, else the first
/// available context marked as the fallback, else the first available one.
pub open spec fn fallback_choice(flags: Seq<bool>, key: usize, available: Seq<Option<usize>>) -> Option<usize> {
    if available.contains(Some(key)) {
        Some(key)
    } else {
        match first_marked_from(flags, available, 0) {
            Some(k) => Some(k),
            None => first_present_from(available, 0),
        }
    }
}

impl I18n {
    /// The application's contexts.
    pub fn new(contexts: Vec<ContextDecl>) -> (r: Self)
        ensures
            r.contexts == contexts,
    {
        I18n { contexts }
    }

    /// The number of contexts.
    pub fn amount(&self) -> (r: usize)
        ensures
            r == self.contexts@.len(),
    {
        self.contexts.len()
    }

    /// The declaration of the context `key`.
    pub fn context(&self, key: usize) -> (r: &ContextDecl)
        requires
            key < self.contexts@.len(),
        ensures
            *r == self.contexts@[key as int],
    {
        &self.contexts[key]
    }

    /// The context to read a value from, for the context `key`, where the
    /// value exists in the contexts named in `available`; `None` where
    /// `available` names none.
    pub fn fallback(&self, key: usize, available: &[Option<usize>]) -> (r: Option<usize>)
        ensures
            r == fallback_choice(fallback_flags(self.contexts@), key, available@),
    {
        let ghost flags = fallback_flags(self.contexts@);
        let mut i: usize = 0;
        while i < available.len()
            invariant
                i <= available@.len(),
                forall|j: int| 0 <= j < i ==> available@[j] != Some(key),
            decreases available@.len() - i,
        {
            if let Some(k) = available[i] {
                if k == key {
                    assert(available@[i as int] == Some(key));
                    return Some(key);
                }
            }
            i = i + 1;
        }
        assert(!available@.contains(Some(key)));
        let mut i: usize = 0;
        while i < available.len()
            invariant
                i <= available@.len(),
                flags == fallback_flags(self.contexts@),
                flags.len() == self.contexts@.len(),
                !available@.contains(Some(key)),
                first_marked_from(flags, available@, 0) == first_marked_from(flags, available@, i as int),
            decreases available@.len() - i,
        {
            if let Some(k) = available[i] {
                if k < self.contexts.len() && self.contexts[k].fallback {
                    assert(flags[k as int] == self.contexts@[k as int].fallback);
                    return Some(k);
                }
            }
            i = i + 1;
        }
        let mut i: usize = 0;
        while i < available.len()
            invariant
                i <= available@.len(),
                !available@.contains(Some(key)),
                first_marked_from(fallback_flags(self.contexts@), available@, 0) is None,
                first_present_from(available@, 0) == first_present_from(available@, i as int),
            decreases available@.len() - i,
        {
            if let Some(k) = available[i] {
                return Some(k);
            }
            i = i + 1;
        }
        None
    }
}

/// The index of the localization of the context named `name`.
pub open spec fn localization_of(locals: Seq<Ast>, name: Seq<char>) -> Option<int> {
    first_with_identifier(locals, IdentifierView::Field(name))
}

/// The localization of the context named `name` has a node at `path`.
pub open spec fn has_value(locals: Seq<Ast>, name: Seq<char>, path: Seq<IdentifierView>) -> bool {
    match localization_of(locals, name) {
        Some(i) => locals[i].lookup(path) is Some,
        None => false,
    }
}

/// The first `k` contexts whose localization has a node at `path`, in
/// order.
pub open spec fn available_upto(contexts: Seq<ContextDecl>, locals: Seq<Ast>, path: Seq<IdentifierView>, k: int) -> Seq<Option<usize>>
    decreases k,
{
    if k <= 0 {
        Seq::empty()
    } else {
        let prev = available_upto(contexts, locals, path, k - 1);
        if has_value(locals, contexts[k - 1].name@, path) {
            prev.push(Some((k - 1) as usize))
        } else {
            prev
        }
    }
}

/// The entries of `available_upto` are exactly the contexts below `k` that
/// have the value.
pub proof fn lemma_available_upto(contexts: Seq<ContextDecl>, locals: Seq<Ast>, path: Seq<IdentifierView>, k: int)
    requires
        0 <= k <= contexts.len(),
        contexts.len() <= usize::MAX,
    ensures
        forall|j: int| 0 <= j < available_upto(contexts, locals, path, k).len() ==> {
            let e = #[trigger] available_upto(contexts, locals, path, k)[j];
            e is Some && (e.unwrap() as int) < k && has_value(locals, contexts[e.unwrap() as int].name@, path)
        },
        forall|i: int| 0 <= i < k && has_value(locals, #[trigger] contexts[i].name@, path)
            ==> available_upto(contexts, locals, path, k).contains(Some(i as usize)),
    decreases k,
{
    if k > 0 {
        lemma_available_upto(contexts, locals, path, k - 1);
        let prev = available_upto(contexts, locals, path, k - 1);
        let cur = available_upto(contexts, locals, path, k);
        assert forall|j: int| 0 <= j < cur.len() implies {
            let e = #[trigger] cur[j];
            e is Some && (e.unwrap() as int) < k && has_value(locals, contexts[e.unwrap() as int].name@, path)
        } by {
            if j < prev.len() {
                assert(cur[j] == prev[j]);
            }
        }
        assert forall|i: int| 0 <= i < k && has_value(locals, #[trigger] contexts[i].name@, path) implies cur.contains(Some(i as usize)) by {
            if i < k - 1 {
                let w = choose|w: int| 0 <= w < prev.len() && prev[w] == Some(i as usize);
                assert(cur[w] == prev[w]);
            } else {
                assert(cur[cur.len() - 1] == Some(i as usize));
            }
        }
    }
}

/// What `first_marked_from` and `first_present_from` pick is an entry of
/// `available`.
pub proof fn lemma_choice_is_available(flags: Seq<bool>, available: Seq<Option<usize>>, i: int)
    requires
        0 <= i,
    ensures
        first_marked_from(flags, available, i) matches Some(k) ==> available.contains(Some(k)),
        first_present_from(available, i) matches Some(k) ==> available.contains(Some(k)),
        first_present_from(available, i) is None ==> forall|j: int| i <= j < available.len() ==> available[j] is None,
    decreases available.len() - i,
{
    if i < available.len() {
        lemma_choice_is_available(flags, available, i + 1);
    }
}

impl Component {
    /// The index of the localization of the context named `name`.
    pub fn localization(&self, name: &String) -> (r: Option<usize>)
        ensures
            match r {
                Some(i) => localization_of(self.localizations@, name@) == Some(i as int) && i < self.localizations@.len(),
                None => localization_of(self.localizations@, name@) is None,
            },
    {
        let ghost locals = self.localizations@;
        let target = Identifier::Field(name.clone());
        let mut i: usize = 0;
        while i < self.localizations.len()
            invariant
                locals == self.localizations@,
                target@ == IdentifierView::Field(name@),
                i <= locals.len(),
                forall|k: int| 0 <= k < i ==> (#[trigger] locals[k]).identifier@ != IdentifierView::Field(name@),
            decreases locals.len() - i,
        {
            if self.localizations[i].identifier == target {
                proof { lemma_first_with_identifier(locals, IdentifierView::Field(name@), i as int); }
                return Some(i);
            }
            i = i + 1;
        }
        proof { lemma_first_with_identifier(locals, IdentifierView::Field(name@), locals.len() as int); }
        None
    }

    /// The contexts (of `i18n`, in order) whose localization has a node at
    /// `path`.
    pub fn available(&self, i18n: &I18n, path: &AstPath) -> (r: Vec<Option<usize>>)
        ensures
            r@ == available_upto(i18n.contexts@, self.localizations@, path@, i18n.contexts@.len() as int),
    {
        let mut r: Vec<Option<usize>> = Vec::new();
        let mut i: usize = 0;
        while i < i18n.contexts.len()
            invariant
                i <= i18n.contexts@.len(),
                r@ == available_upto(i18n.contexts@, self.localizations@, path@, i as int),
            decreases i18n.contexts@.len() - i,
        {
            match self.localization(&i18n.contexts[i].name) {
                Some(l) => {
                    if self.localizations[l].by_path(path).is_some() {
                        r.push(Some(i));
                    }
                },
                None => {},
            }
            i = i + 1;
        }
        r
    }
}

impl Translations {
    /// The context whose localization of component `comp` the context
    /// `key` reads the value at `path` from.
    pub open spec fn chosen(&self, key: usize, comp: int, path: Seq<IdentifierView>) -> Option<usize> {
        let contexts = self.i18n.contexts@;
        fallback_choice(
            fallback_flags(contexts),
            key,
            available_upto(contexts, self.components@[comp].localizations@, path, contexts.len() as int),
        )
    }

    /// The value that the context `key` reads at `path` of the component
    /// `comp`: the node of the chosen context's localization.
    pub open spec fn resolved(&self, key: usize, comp: int, path: Seq<IdentifierView>) -> Option<Ast> {
        let locals = self.components@[comp].localizations@;
        match self.chosen(key, comp, path) {
            Some(k) => match localization_of(locals, self.i18n.contexts@[k as int].name@) {
                Some(i) => locals[i].lookup(path),
                None => None,
            },
            None => None,
        }
    }

    /// The node that the context `key` reads at `path` of the component
    /// `comp`: its own where its localization has one, else that of the
    /// context it falls back to; `None` where no localization has one.
    pub fn resolve(&self, key: usize, comp: usize, path: &AstPath) -> (r: Option<&Ast>)
        requires
            comp < self.components@.len(),
        ensures
            match r {
                Some(n) => self.resolved(key, comp as int, path@) == Some(*n),
                None => self.resolved(key, comp as int, path@) is None,
            },
    {
        let component = &self.components[comp];
        let n = self.i18n.contexts.len();
        let available = component.available(&self.i18n, path);
        proof {
            lemma_available_upto(self.i18n.contexts@, component.localizations@, path@, self.i18n.contexts@.len() as int);
            lemma_choice_is_available(fallback_flags(self.i18n.contexts@), available@, 0);
        }
        match self.i18n.fallback(key, available.as_slice()) {
            Some(k) => {
                proof {
                    assert(available@.contains(Some(k)));
                    let w = choose|w: int| 0 <= w < available@.len() && available@[w] == Some(k);
                    assert(available@[w] == Some(k));
                }
                match component.localization(&self.i18n.contexts[k].name) {
                    Some(l) => component.localizations[l].by_path(path),
                    None => None,
                }
            },
            None => None,
        }
    }
}

/// What the context `k` holds at `path` of a component's localizations.
pub open spec fn value_of(contexts: Seq<ContextDecl>, locals: Seq<Ast>, k: int, path: Seq<IdentifierView>) -> Option<Ast> {
    match localization_of(locals, contexts[k].name@) {
        Some(i) => locals[i].lookup(path),
        None => None,
    }
}

/// The number of contexts fits in a `usize`.
pub proof fn lemma_contexts_fit(t: Translations)
    ensures
        t.i18n.contexts@.len() <= usize::MAX,
{
    broadcast use vstd::std_specs::vec::axiom_spec_len;
    assert(t.i18n.contexts@.len() == t.i18n.contexts.len());
}

/// A context reads its own value wherever its localization has one.
pub proof fn law_own_value_first(t: Translations, key: usize, comp: int, path: Seq<IdentifierView>)
    requires
        0 <= comp < t.components@.len(),
        key < t.i18n.contexts@.len(),
        has_value(t.components@[comp].localizations@, t.i18n.contexts@[key as int].name@, path),
    ensures
        t.resolved(key, comp, path) == value_of(t.i18n.contexts@, t.components@[comp].localizations@, key as int, path),
        t.resolved(key, comp, path) is Some,
{
    let contexts = t.i18n.contexts@;
    let locals = t.components@[comp].localizations@;
    lemma_contexts_fit(t);
    lemma_available_upto(contexts, locals, path, contexts.len() as int);
}

/// Where a context's own localization lacks a value, it reads that of an
/// available context marked as the fallback, if there is one.
pub proof fn law_fallback_marked(t: Translations, key: usize, comp: int, path: Seq<IdentifierView>, m: int)
    requires
        0 <= comp < t.components@.len(),
        key < t.i18n.contexts@.len(),
        !has_value(t.components@[comp].localizations@, t.i18n.contexts@[key as int].name@, path),
        0 <= m < t.i18n.contexts@.len(),
        t.i18n.contexts@[m].fallback,
        has_value(t.components@[comp].localizations@, t.i18n.contexts@[m].name@, path),
    ensures
        t.chosen(key, comp, path) matches Some(k) && t.i18n.contexts@[k as int].fallback
            && t.resolved(key, comp, path) == value_of(t.i18n.contexts@, t.components@[comp].localizations@, k as int, path)
            && t.resolved(key, comp, path) is Some,
{
    let contexts = t.i18n.contexts@;
    let locals = t.components@[comp].localizations@;
    let flags = fallback_flags(contexts);
    let av = available_upto(contexts, locals, path, contexts.len() as int);
    lemma_contexts_fit(t);
    lemma_available_upto(contexts, locals, path, contexts.len() as int);
    lemma_choice_is_available(flags, av, 0);
    assert(!av.contains(Some(key))) by {
        if av.contains(Some(key)) {
            let w = choose|w: int| 0 <= w < av.len() && av[w] == Some(key);
            assert(av[w] == Some(key));
        }
    }
    assert(av.contains(Some(m as usize)));
    let w = choose|w: int| 0 <= w < av.len() && av[w] == Some(m as usize);
    assert(flags[m] == contexts[m].fallback);
    lemma_first_marked_found(flags, av, 0, w);
    let k = first_marked_from(flags, av, 0).unwrap();
    let wk = choose|x: int| 0 <= x < av.len() && av[x] == Some(k);
    assert(av[wk] == Some(k));
}

/// What `first_present_from` finds is the first entry from `i` on that
/// names a context; it finds none only where no entry does.
pub proof fn lemma_first_present(available: Seq<Option<usize>>, i: int)
    requires
        0 <= i,
    ensures
        match first_present_from(available, i) {
            Some(k) => exists|m: int| i <= m < available.len() && available[m] == Some(k)
                && forall|j: int| i <= j < m ==> available[j] is None,
            None => forall|j: int| i <= j < available.len() ==> available[j] is None,
        },
    decreases available.len() - i,
{
    if i < available.len() {
        lemma_first_present(available, i + 1);
        if available[i] is None {
            if let Some(k) = first_present_from(available, i + 1) {
                let m = choose|m: int| i + 1 <= m < available.len() && available[m] == Some(k)
                    && forall|j: int| i + 1 <= j < m ==> available[j] is None;
                assert(forall|j: int| i <= j < m ==> available[j] is None);
            }
        }
    }
}

/// `x` names a context whose flag in `flags` is set.
pub open spec fn names_marked(flags: Seq<bool>, x: Option<usize>) -> bool {
    x matches Some(k) && k < flags.len() && flags[k as int]
}

/// `x` names a context of `contexts` marked as the fallback.
pub open spec fn names_fallback(contexts: Seq<ContextDecl>, x: Option<usize>) -> bool {
    x matches Some(k) && k < contexts.len() && contexts[k as int].fallback
}

/// What `first_marked_from` finds is named by the first entry from `i` on
/// that names a context marked as the fallback; it finds none only where
/// no entry does.
pub proof fn lemma_first_marked(flags: Seq<bool>, available: Seq<Option<usize>>, i: int)
    requires
        0 <= i,
    ensures
        match first_marked_from(flags, available, i) {
            Some(k) => k < flags.len() && flags[k as int] && exists|m: int| i <= m < available.len() && available[m] == Some(k)
                && forall|j: int| i <= j < m ==> !names_marked(flags, #[trigger] available[j]),
            None => forall|j: int| i <= j < available.len() ==> !names_marked(flags, #[trigger] available[j]),
        },
    decreases available.len() - i,
{
    if i < available.len() {
        lemma_first_marked(flags, available, i + 1);
        if !names_marked(flags, available[i]) {
            if let Some(k) = first_marked_from(flags, available, i + 1) {
                let m = choose|m: int| i + 1 <= m < available.len() && available[m] == Some(k)
                    && forall|j: int| i + 1 <= j < m ==> !names_marked(flags, #[trigger] available[j]);
                assert(forall|j: int| i <= j < m ==> !names_marked(flags, #[trigger] available[j]));
            }
        }
    }
}

/// The order in which a context falls back, for the contexts `available`
/// that hold a value: its own value where it has one; else the value of
/// the first available context marked as the fallback; else that of the
/// first available context of all; nothing only where no context holds
/// one.
pub proof fn law_fallback_order(contexts: Seq<ContextDecl>, key: usize, available: Seq<Option<usize>>)
    ensures
        ({
            let r = fallback_choice(fallback_flags(contexts), key, available);
            &&& available.contains(Some(key)) ==> r == Some(key)
            &&& (!available.contains(Some(key)) && exists|m: int| 0 <= m < available.len() && names_fallback(contexts, #[trigger] available[m]))
                ==> (r matches Some(k) && k < contexts.len() && contexts[k as int].fallback
                    && exists|m: int| 0 <= m < available.len() && available[m] == Some(k)
                        && forall|j: int| 0 <= j < m ==> !names_fallback(contexts, #[trigger] available[j]))
            &&& (!available.contains(Some(key)) && forall|m: int| 0 <= m < available.len() ==> !names_fallback(contexts, #[trigger] available[m]))
                ==> match r {
                    Some(k) => exists|m: int| 0 <= m < available.len() && available[m] == Some(k)
                        && forall|j: int| 0 <= j < m ==> #[trigger] available[j] is None,
                    None => forall|j: int| 0 <= j < available.len() ==> #[trigger] available[j] is None,
                }
        }),
{
    let flags = fallback_flags(contexts);
    lemma_first_marked(flags, available, 0);
    lemma_first_present(available, 0);
    assert(flags.len() == contexts.len());
    assert forall|x: Option<usize>| #[trigger] names_marked(flags, x) == names_fallback(contexts, x) by {
        if let Some(k) = x {
            if k < contexts.len() {
                assert(flags[k as int] == contexts[k as int].fallback);
            }
        }
    }
}

/// `first_marked_from` finds a marked entry wherever one follows `i`, and
/// what it finds is marked.
pub proof fn lemma_first_marked_found(flags: Seq<bool>, available: Seq<Option<usize>>, i: int, w: int)
    requires
        0 <= i <= w < available.len(),
        available[w] matches Some(k) && k < flags.len() && flags[k as int],
    ensures
        first_marked_from(flags, available, i) matches Some(k) && k < flags.len() && flags[k as int],
    decreases w - i,
{
    if i < w {
        lemma_first_marked_found(flags, available, i + 1, w);
    }
}

/// A context reads a value at `path` exactly where some context's
/// localization has one there.
pub proof fn law_resolved_iff_some_value(t: Translations, key: usize, comp: int, path: Seq<IdentifierView>)
    requires
        0 <= comp < t.components@.len(),
    ensures
        t.resolved(key, comp, path) is Some <==> exists|i: int| 0 <= i < t.i18n.contexts@.len()
            && has_value(t.components@[comp].localizations@, #[trigger] t.i18n.contexts@[i].name@, path),
{
    let contexts = t.i18n.contexts@;
    let locals = t.components@[comp].localizations@;
    let flags = fallback_flags(contexts);
    let av = available_upto(contexts, locals, path, contexts.len() as int);
    lemma_contexts_fit(t);
    lemma_available_upto(contexts, locals, path, contexts.len() as int);
    lemma_choice_is_available(flags, av, 0);
    if t.resolved(key, comp, path) is Some {
        let k = t.chosen(key, comp, path).unwrap();
        assert(av.contains(Some(k)));
        let w = choose|w: int| 0 <= w < av.len() && av[w] == Some(k);
        assert(av[w] == Some(k));
        assert(has_value(locals, contexts[k as int].name@, path));
    }
    if exists|i: int| 0 <= i < contexts.len() && has_value(locals, #[trigger] contexts[i].name@, path) {
        let i = choose|i: int| 0 <= i < contexts.len() && has_value(locals, #[trigger] contexts[i].name@, path);
        assert(av.contains(Some(i as usize)));
        let w = choose|w: int| 0 <= w < av.len() && av[w] == Some(i as usize);
        assert(av[w] == Some(i as usize));
        let k = t.chosen(key, comp, path).unwrap();
        assert(av.contains(Some(k)));
        let wk = choose|x: int| 0 <= x < av.len() && av[x] == Some(k);
        assert(av[wk] == Some(k));
    }
}

/// The value of an argument key.
pub enum ArgumentKeyView {
    Index(usize),
    Name(Seq<char>),
}

/// The value of the argument key `k`.
pub open spec fn key_view(k: ArgumentKey) -> ArgumentKeyView {
    match k {
        ArgumentKey::Index(i) => ArgumentKeyView::Index(i),
        ArgumentKey::Name(n) => ArgumentKeyView::Name(n@),
    }
}

/// The values of the arguments `args`.
pub open spec fn args_view(args: Seq<(ArgumentKey, String)>) -> Seq<(ArgumentKeyView, Seq<char>)> {
    args.map_values(|a: (ArgumentKey, String)| (key_view(a.0), a.1@))
}

/// What dfmt makes of the template text `text` with the arguments `args`,
/// each given as a `Display` value; `None` where it refuses the text or
/// misses an argument.
pub uninterp spec fn dfmt_formatted(text: Seq<char>, args: Seq<(ArgumentKeyView, Seq<char>)>) -> Option<Seq<char>>;

/// `c` is one of the ASCII digits `0` to `9`.
pub open spec fn is_ascii_digit(c: char) -> bool {
    '0' <= c <= '9'
}

/// The number that the decimal digits `s` write.
pub open spec fn digits_value(s: Seq<char>) -> int
    decreases s.len(),
{
    if s.len() == 0 {
        0
    } else {
        digits_value(s.drop_last()) * 10 + (s.last() as int - '0' as int)
    }
}

/// `text[a..b]` is a whole run of ASCII digits: no digit stands just
/// before or just after it.
pub open spec fn digit_run(text: Seq<char>, a: int, b: int) -> bool {
    &&& 0 <= a < b <= text.len()
    &&& forall|t: int| a <= t < b ==> is_ascii_digit(#[trigger] text[t])
    &&& (a == 0 || !is_ascii_digit(text[a - 1]))
    &&& (b == text.len() || !is_ascii_digit(text[b]))
}

/// `text[a..b]` stands where a format specifier can: after a `{` and a
/// `:`, and before a `}`, with no other brace in between on either side.
pub open spec fn within_specifier(text: Seq<char>, a: int, b: int) -> bool {
    &&& exists|l: int, k: int| #![trigger text[l], text[k]] 0 <= l < k < a && text[l] == '{' && text[k] == ':'
        && forall|t: int| l < t < a ==> text[t] != '{' && text[t] != '}'
    &&& exists|m: int| b <= m < text.len() && #[trigger] text[m] == '}'
        && forall|t: int| b <= t < m ==> text[t] != '{' && text[t] != '}'
}

/// Every width and precision that a format specifier of `text` can write
/// fits in 16 bits: each run of digits that stands inside a specifier
/// writes a number below 65536. dfmt reads a width or a precision as a
/// 16-bit number and panics on a larger one.
pub open spec fn dfmt_widths_fit(text: Seq<char>) -> bool {
    forall|a: int, b: int| #[trigger] digit_run(text, a, b) && within_specifier(text, a, b)
        ==> digits_value(text.subrange(a, b)) < 65536
}

/// Parses `text` with `dfmt::Template::parse`, adds each argument as a
/// `Display` value and formats it with `dfmt::Arguments::format`. The
/// contract claims only that the outcome is a function of the text and the
/// arguments, named `dfmt_formatted`. dfmt's parser unwraps the 16-bit
/// parse of each width and precision, so texts where one is larger are
/// left out.
#[verifier::external_body]
fn dfmt_format_display(text: &str, args: &Vec<(ArgumentKey, String)>) -> (r: Option<String>)
    requires
        dfmt_widths_fit(text@),
    ensures
        match r {
            Some(s) => dfmt_formatted(text@, args_view(args@)) == Some(s@),
            None => dfmt_formatted(text@, args_view(args@)) is None,
        },
{
    let template = dfmt::Template::parse(text).ok()?;
    let mut arguments = template.arguments();
    for (key, value) in args.iter() {
        let key = match key {
            ArgumentKey::Index(i) => dfmt::ArgumentKey::Index(*i),
            ArgumentKey::Name(n) => dfmt::ArgumentKey::Name(n.clone()),
        };
        arguments.add_argument_value_unchecked(key, dfmt::ArgumentValue::Display(value));
    }
    arguments.format().ok()
}

/// Formats a template with the arguments given as `Display` values: the
/// template is written out and handed to dfmt.
pub fn format_template(template: &Template, args: &Vec<(ArgumentKey, String)>) -> (r: Option<String>)
    requires
        writable_template(template.0@),
        dfmt_widths_fit(template_text(template.0@)),
    ensures
        match r {
            Some(s) => dfmt_formatted(template_text(template.0@), args_view(args@)) == Some(s@),
            None => dfmt_formatted(template_text(template.0@), args_view(args@)) is None,
        },
{
    let text = template.to_text();
    dfmt_format_display(text.as_str(), args)
}

/// `s` with each brace doubled, so that a template shows it as it is.
pub open spec fn escaped(s: Seq<char>) -> Seq<char>
    decreases s.len(),
{
    if s.len() == 0 {
        Seq::empty()
    } else {
        let c = s.last();
        escaped(s.drop_last()) + if c == '{' || c == '}' { seq![c, c] } else { seq![c] }
    }
}

/// `s` with each brace doubled.
pub fn escape(s: &str) -> (r: String)
    ensures
        r@ == escaped(s@),
{
    let cs = chars_of(s);
    let mut out = String::new();
    let mut i: usize = 0;
    while i < cs.len()
        invariant
            cs@ == s@,
            i <= cs@.len(),
            out@ == escaped(cs@.subrange(0, i as int)),
        decreases cs@.len() - i,
    {
        let c = cs[i];
        assert(cs@.subrange(0, i + 1).drop_last() =~= cs@.subrange(0, i as int));
        push_char(&mut out, c);
        if c == '{' || c == '}' {
            push_char(&mut out, c);
        }
        i = i + 1;
    }
    assert(cs@.subrange(0, cs@.len() as int) =~= cs@);
    out
}

/// The first component from index `i` on named `name`.
pub open spec fn first_component_from(comps: Seq<Component>, name: Seq<char>, i: int) -> Option<int>
    decreases comps.len() - i,
{
    if i < 0 || i >= comps.len() {
        None
    } else if comps[i].name@ == name {
        Some(i)
    } else {
        first_component_from(comps, name, i + 1)
    }
}

/// The first context from index `i` on named `name`.
pub open spec fn first_context_from(contexts: Seq<ContextDecl>, name: Seq<char>, i: int) -> Option<int>
    decreases contexts.len() - i,
{
    if i < 0 || i >= contexts.len() {
        None
    } else if contexts[i].name@ == name {
        Some(i)
    } else {
        first_context_from(contexts, name, i + 1)
    }
}

pub proof fn lemma_first_component_from(comps: Seq<Component>, name: Seq<char>, i: int)
    requires
        0 <= i,
    ensures
        first_component_from(comps, name, i) matches Some(c) ==> i <= c < comps.len(),
    decreases comps.len() - i,
{
    if i < comps.len() {
        lemma_first_component_from(comps, name, i + 1);
    }
}

pub proof fn lemma_first_context_from(contexts: Seq<ContextDecl>, name: Seq<char>, i: int)
    requires
        0 <= i,
    ensures
        first_context_from(contexts, name, i) matches Some(c) ==> i <= c < contexts.len(),
    decreases contexts.len() - i,
{
    if i < contexts.len() {
        lemma_first_context_from(contexts, name, i + 1);
    }
}

/// The name of a field identifier.
pub open spec fn field_name(id: IdentifierView) -> Option<Seq<char>> {
    match id {
        IdentifierView::Field(n) => Some(n),
        _ => None,
    }
}

/// The identifiers `a[..a_end]` followed by `b[b_start..]`, as a path.
fn join_identifiers(a: &[Identifier], a_end: usize, b: &[Identifier], b_start: usize) -> (r: AstPath)
    requires
        a_end <= a@.len(),
        b_start <= b@.len(),
    ensures
        r@ == ids_view(a@.subrange(0, a_end as int)) + ids_view(b@.subrange(b_start as int, b@.len() as int)),
{
    let mut v: Vec<Identifier> = Vec::new();
    let mut i: usize = 0;
    while i < a_end
        invariant
            a_end <= a@.len(),
            i <= a_end,
            v@ == a@.subrange(0, i as int),
        decreases a_end - i,
    {
        v.push(a[i].clone());
        i = i + 1;
    }
    let mut j: usize = b_start;
    while j < b.len()
        invariant
            b_start <= j <= b@.len(),
            v@ == a@.subrange(0, a_end as int) + b@.subrange(b_start as int, j as int),
        decreases b@.len() - j,
    {
        v.push(b[j].clone());
        assert(b@.subrange(b_start as int, j + 1) =~= b@.subrange(b_start as int, j as int).push(b@[j as int]));
        j = j + 1;
    }
    let r = AstPath(v);
    assert(r@ =~= ids_view(a@.subrange(0, a_end as int)) + ids_view(b@.subrange(b_start as int, b@.len() as int)));
    r
}

impl Translations {
    /// Where a reference with `origin` and path `rp`, in the template at
    /// `path` of component `comp` read by context `key`, points: the
    /// context, the component and the path there.
    pub open spec fn ref_target(&self, key: usize, comp: int, path: Seq<IdentifierView>, origin: AstRefOrigin, rp: Seq<IdentifierView>)
        -> Option<(usize, int, Seq<IdentifierView>)>
    {
        match origin {
            AstRefOrigin::SelfNode => if path.len() >= 1 {
                Some((key, comp, path.drop_last() + rp))
            } else {
                None
            },
            AstRefOrigin::RootNode => Some((key, comp, rp)),
            AstRefOrigin::ContextNode => if rp.len() >= 1 {
                match field_name(rp[0]) {
                    Some(n) => match first_component_from(self.components@, n, 0) {
                        Some(c) => Some((key, c, rp.drop_first())),
                        None => None,
                    },
                    None => None,
                }
            } else {
                None
            },
            AstRefOrigin::I18nNode => if rp.len() >= 2 {
                match (field_name(rp[0]), field_name(rp[1])) {
                    (Some(cn), Some(n)) => match (first_context_from(self.i18n.contexts@, cn, 0), first_component_from(self.components@, n, 0)) {
                        (Some(k), Some(c)) => Some((k as usize, c, rp.subrange(2, rp.len() as int))),
                        _ => None,
                    },
                    _ => None,
                }
            } else {
                None
            },
        }
    }

    /// The text that a reference to `target` stands for: the string
    /// literal read there, its braces doubled.
    pub open spec fn referenced_text(&self, target: Option<(usize, int, Seq<IdentifierView>)>) -> Option<Seq<char>> {
        match target {
            Some((k, c, q)) => match self.resolved(k, c, q) {
                Some(n) => match n.value {
                    NodeValue::Literal(LiteralValue::String(StringValue::Literal(s))) => Some(escaped(s@)),
                    _ => None,
                },
                None => None,
            },
            None => None,
        }
    }

    /// The piece `p` of the template at `path` written out, a reference
    /// replaced by what it stands for.
    pub open spec fn piece_rendered(&self, key: usize, comp: int, path: Seq<IdentifierView>, p: Piece) -> Option<Seq<char>> {
        match p {
            Piece::Argument { name: ArgumentName::Const(NameRef::Ast { origin, path: rp }), specifier: None } =>
                self.referenced_text(self.ref_target(key, comp, path, origin, ids_view(rp@))),
            Piece::Argument { name: ArgumentName::Const(_), .. } => None,
            _ => Some(piece_text(p)),
        }
    }

    /// The pieces of the template at `path` written out, each reference
    /// replaced by what it stands for; `None` where one cannot be.
    pub open spec fn rendered(&self, key: usize, comp: int, path: Seq<IdentifierView>, pieces: Seq<Piece>) -> Option<Seq<char>>
        decreases pieces.len(),
    {
        if pieces.len() == 0 {
            Some(Seq::empty())
        } else {
            match self.rendered(key, comp, path, pieces.drop_last()) {
                Some(pre) => match self.piece_rendered(key, comp, path, pieces.last()) {
                    Some(t) => Some(pre + t),
                    None => None,
                },
                None => None,
            }
        }
    }

    /// Where the context `key` reads a template at `path` of component
    /// `comp`, the text it renders has its widths and precisions within 16
    /// bits.
    pub open spec fn widths_fit_at(&self, key: usize, comp: int, path: Seq<IdentifierView>) -> bool {
        match self.resolved(key, comp, path) {
            Some(n) => match n.value {
                NodeValue::Literal(LiteralValue::String(StringValue::Template(t))) => match self.rendered(key, comp, path, t.0@) {
                    Some(text) => dfmt_widths_fit(text),
                    None => true,
                },
                _ => true,
            },
            None => true,
        }
    }

    /// What the context `key` reads at `path` of component `comp` as text:
    /// a template formatted with `args`, a string literal as it is.
    pub open spec fn formatted(&self, key: usize, comp: int, path: Seq<IdentifierView>, args: Seq<(ArgumentKeyView, Seq<char>)>) -> Option<Seq<char>> {
        match self.resolved(key, comp, path) {
            Some(n) => match n.value {
                NodeValue::Literal(LiteralValue::String(StringValue::Template(t))) => match self.rendered(key, comp, path, t.0@) {
                    Some(text) => dfmt_formatted(text, args),
                    None => None,
                },
                NodeValue::Literal(LiteralValue::String(StringValue::Literal(s))) => Some(s@),
                _ => None,
            },
            None => None,
        }
    }

    /// The index of the first component named `name`.
    pub fn component_index(&self, name: &String) -> (r: Option<usize>)
        ensures
            match r {
                Some(c) => first_component_from(self.components@, name@, 0) == Some(c as int),
                None => first_component_from(self.components@, name@, 0) is None,
            },
    {
        proof { lemma_first_component_from(self.components@, name@, 0); }
        let mut i: usize = 0;
        while i < self.components.len()
            invariant
                i <= self.components@.len(),
                first_component_from(self.components@, name@, 0) == first_component_from(self.components@, name@, i as int),
            decreases self.components@.len() - i,
        {
            if self.components[i].name.eq(name) {
                return Some(i);
            }
            i = i + 1;
        }
        None
    }

    /// The index of the first context named `name`.
    pub fn context_index(&self, name: &String) -> (r: Option<usize>)
        ensures
            match r {
                Some(c) => first_context_from(self.i18n.contexts@, name@, 0) == Some(c as int),
                None => first_context_from(self.i18n.contexts@, name@, 0) is None,
            },
    {
        proof { lemma_first_context_from(self.i18n.contexts@, name@, 0); }
        let mut i: usize = 0;
        while i < self.i18n.contexts.len()
            invariant
                i <= self.i18n.contexts@.len(),
                first_context_from(self.i18n.contexts@, name@, 0) == first_context_from(self.i18n.contexts@, name@, i as int),
            decreases self.i18n.contexts@.len() - i,
        {
            if self.i18n.contexts[i].name.eq(name) {
                return Some(i);
            }
            i = i + 1;
        }
        None
    }
}

impl Translations {
    /// Where a reference with `origin` and path `rp` in the template at
    /// `path` of component `comp`, read by context `key`, points.
    pub fn ref_target_of(&self, key: usize, comp: usize, path: &AstPath, origin: &AstRefOrigin, rp: &Vec<Identifier>)
        -> (r: Option<(usize, usize, AstPath)>)
        requires
            comp < self.components@.len(),
        ensures
            match r {
                Some((k, c, q)) => self.ref_target(key, comp as int, path@, *origin, ids_view(rp@)) == Some((k, c as int, q@))
                    && c < self.components@.len(),
                None => self.ref_target(key, comp as int, path@, *origin, ids_view(rp@)) is None,
            },
    {
        let ghost rpv = ids_view(rp@);
        match origin {
            AstRefOrigin::SelfNode => {
                if path.len() >= 1 {
                    let ids = path.iter();
                    let q = join_identifiers(ids, ids.len() - 1, rp.as_slice(), 0);
                    assert(ids_view(ids@.subrange(0, ids@.len() - 1)) =~= path@.drop_last());
                    assert(rp@.subrange(0, rp@.len() as int) =~= rp@);
                    Some((key, comp, q))
                } else {
                    None
                }
            },
            AstRefOrigin::RootNode => {
                let q = join_identifiers(rp.as_slice(), 0, rp.as_slice(), 0);
                assert(ids_view(rp@.subrange(0, 0)) =~= Seq::<IdentifierView>::empty());
                assert(rp@.subrange(0, rp@.len() as int) =~= rp@);
                assert(q@ =~= rpv);
                Some((key, comp, q))
            },
            AstRefOrigin::ContextNode => {
                if rp.len() >= 1 {
                    match &rp[0] {
                        Identifier::Field(n) => {
                            proof { lemma_first_component_from(self.components@, n@, 0); }
                            match self.component_index(n) {
                                Some(c) => {
                                    let q = join_identifiers(rp.as_slice(), 0, rp.as_slice(), 1);
                                    assert(ids_view(rp@.subrange(0, 0)) =~= Seq::<IdentifierView>::empty());
                                    assert(q@ =~= rpv.drop_first());
                                    Some((key, c, q))
                                },
                                None => None,
                            }
                        },
                        _ => None,
                    }
                } else {
                    None
                }
            },
            AstRefOrigin::I18nNode => {
                if rp.len() >= 2 {
                    match (&rp[0], &rp[1]) {
                        (Identifier::Field(cn), Identifier::Field(n)) => {
                            proof { lemma_first_component_from(self.components@, n@, 0); }
                            match (self.context_index(cn), self.component_index(n)) {
                                (Some(k), Some(c)) => {
                                    let q = join_identifiers(rp.as_slice(), 0, rp.as_slice(), 2);
                                    assert(ids_view(rp@.subrange(0, 0)) =~= Seq::<IdentifierView>::empty());
                                    assert(q@ =~= rpv.subrange(2, rpv.len() as int));
                                    Some((k, c, q))
                                },
                                _ => None,
                            }
                        },
                        _ => None,
                    }
                } else {
                    None
                }
            },
        }
    }

    /// Once a prefix of the pieces cannot be written out, no longer one can.
    pub proof fn lemma_rendered_none(&self, key: usize, comp: int, path: Seq<IdentifierView>, pieces: Seq<Piece>, m: int, j: int)
        requires
            0 <= m <= j <= pieces.len(),
            self.rendered(key, comp, path, pieces.subrange(0, m)) is None,
        ensures
            self.rendered(key, comp, path, pieces.subrange(0, j)) is None,
        decreases j - m,
    {
        if j > m {
            self.lemma_rendered_none(key, comp, path, pieces, m, j - 1);
            assert(pieces.subrange(0, j).drop_last() =~= pieces.subrange(0, j - 1));
        }
    }

    /// The text a reference to the value at `q` of component `c`, read by
    /// context `k`, stands for.
    fn referenced_text_of(&self, k: usize, c: usize, q: &AstPath) -> (r: Option<String>)
        requires
            c < self.components@.len(),
        ensures
            match r {
                Some(s) => self.referenced_text(Some((k, c as int, q@))) == Some(s@),
                None => self.referenced_text(Some((k, c as int, q@))) is None,
            },
    {
        match self.resolve(k, c, q) {
            Some(n) => match &n.value {
                NodeValue::Literal(LiteralValue::String(StringValue::Literal(s))) => Some(escape(s.as_str())),
                _ => None,
            },
            None => None,
        }
    }

    /// The template at `path` of component `comp` written out for the
    /// context `key`, each reference replaced by the string it points to.
    pub fn render(&self, key: usize, comp: usize, path: &AstPath, template: &Template) -> (r: Option<String>)
        requires
            comp < self.components@.len(),
        ensures
            match r {
                Some(s) => self.rendered(key, comp as int, path@, template.0@) == Some(s@),
                None => self.rendered(key, comp as int, path@, template.0@) is None,
            },
    {
        let ghost pieces = template.0@;
        let mut out = String::new();
        let mut i: usize = 0;
        while i < template.0.len()
            invariant
                comp < self.components@.len(),
                pieces == template.0@,
                i <= pieces.len(),
                self.rendered(key, comp as int, path@, pieces.subrange(0, i as int)) == Some(out@),
            decreases pieces.len() - i,
        {
            assert(pieces.subrange(0, i + 1).drop_last() =~= pieces.subrange(0, i as int));
            assert(pieces.subrange(0, i + 1).last() == pieces[i as int]);
            let piece = &template.0[i];
            match piece {
                Piece::Argument { name: ArgumentName::Const(NameRef::Ast { origin, path: rp }), specifier: None } => {
                    match self.ref_target_of(key, comp, path, origin, rp) {
                        Some((k, c, q)) => match self.referenced_text_of(k, c, &q) {
                            Some(t) => push_str(&mut out, t.as_str()),
                            None => {
                                proof { self.lemma_rendered_none(key, comp as int, path@, pieces, i + 1, pieces.len() as int); }
                                assert(pieces.subrange(0, pieces.len() as int) =~= pieces);
                                return None;
                            },
                        },
                        None => {
                            proof { self.lemma_rendered_none(key, comp as int, path@, pieces, i + 1, pieces.len() as int); }
                            assert(pieces.subrange(0, pieces.len() as int) =~= pieces);
                            return None;
                        },
                    }
                },
                Piece::Argument { name: ArgumentName::Const(_), .. } => {
                    proof { self.lemma_rendered_none(key, comp as int, path@, pieces, i + 1, pieces.len() as int); }
                    assert(pieces.subrange(0, pieces.len() as int) =~= pieces);
                    return None;
                },
                _ => {
                    piece.write_to(&mut out);
                },
            }
            i = i + 1;
        }
        assert(pieces.subrange(0, pieces.len() as int) =~= pieces);
        Some(out)
    }

    /// What the context `key` reads at `path` of component `comp` as text:
    /// a template with its references filled in and formatted by dfmt
    /// with `args`, or a string literal as it is.
    pub fn format(&self, key: usize, comp: usize, path: &AstPath, args: &Vec<(ArgumentKey, String)>) -> (r: Option<String>)
        requires
            comp < self.components@.len(),
            self.widths_fit_at(key, comp as int, path@),
        ensures
            match r {
                Some(s) => self.formatted(key, comp as int, path@, args_view(args@)) == Some(s@),
                None => self.formatted(key, comp as int, path@, args_view(args@)) is None,
            },
    {
        match self.resolve(key, comp, path) {
            Some(n) => match &n.value {
                NodeValue::Literal(LiteralValue::String(StringValue::Template(t))) => match self.render(key, comp, path, t) {
                    Some(text) => dfmt_format_display(text.as_str(), args),
                    None => None,
                },
                NodeValue::Literal(LiteralValue::String(StringValue::Literal(s))) => Some(s.clone()),
                _ => None,
            },
            None => None,
        }
    }
}

} // verus!
