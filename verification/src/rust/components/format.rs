use vstd::prelude::*;

use crate::case::uppercase;
use crate::identifier::Identifier;
use crate::rust::generator::path::{access_text, Path};
use crate::rust::shared::name::{identifier_text, snake_name_of, NamePascalCase, NameSnakeCase};
use crate::identifier::{is_permutation, lemma_text_less_irreflexive, lemma_text_less_transitive, text_is_less, text_less};
use crate::template::{arguments_of, key_text, reference_name, reference_name_text, ArgumentKey, ArgumentName, AstRefOrigin, NameRef, Specifier, Template, Type};
use crate::text::{push_chars, push_str, string_of};

verus! {

/// A generated formatter type: the struct that formats one template of a
/// localization with the arguments that its caller passes.
pub struct Format {
    pub name: NamePascalCase,
    pub context_key: Path,
    pub template: Template,
    pub parent_path: Path,
    pub root_name: NameSnakeCase,
    pub is_parent_struct: bool,
}

/// The type an argument is formatted with: that of its specifier,
/// `Display` where it has none.
pub open spec fn argument_type(specifier: Option<Specifier>) -> Type {
    match specifier {
        Some(s) => s.ty,
        None => Type::Display,
    }
}

/// The arguments among `args` that the caller passes (those named by a key,
/// not a reference to the tree), in order, with their types.
pub open spec fn key_arguments(args: Seq<(ArgumentName, Option<Specifier>)>) -> Seq<(ArgumentKey, Type)>
    decreases args.len(),
{
    if args.len() == 0 {
        Seq::empty()
    } else {
        let rest = key_arguments(args.drop_last());
        match args.last().0 {
            ArgumentName::ArgumentKey(k) => rest.push((k, argument_type(args.last().1))),
            _ => rest,
        }
    }
}

impl Format {
    /// The formatter with its parts.
    pub fn new(
        name: NamePascalCase,
        context_key: Path,
        template: Template,
        parent_path: Path,
        root_name: NameSnakeCase,
        is_parent_struct: bool,
    ) -> (r: Self)
        ensures
            r.name == name,
            r.context_key == context_key,
            r.template == template,
            r.parent_path == parent_path,
            r.root_name == root_name,
            r.is_parent_struct == is_parent_struct,
    {
        Format { name, context_key, template, parent_path, root_name, is_parent_struct }
    }

    /// The arguments that the formatter's caller passes, in the order of the
    /// template, each with the type it is formatted with.
    pub fn caller_arguments(&self) -> (r: Vec<(ArgumentKey, Type)>)
        ensures
            r@ == key_arguments(arguments_of(self.template.0@)),
    {
        let args = self.template.arguments();
        let ghost all = arguments_of(self.template.0@);
        let mut r: Vec<(ArgumentKey, Type)> = Vec::new();
        let mut i: usize = 0;
        while i < args.len()
            invariant
                args@.len() == all.len(),
                forall|k: int| 0 <= k < args@.len() ==> *(#[trigger] args@[k]).0 == all[k].0 && *args@[k].1 == all[k].1,
                i <= args@.len(),
                r@ == key_arguments(all.subrange(0, i as int)),
            decreases args@.len() - i,
        {
            let ghost prev = all.subrange(0, i as int);
            let ghost next = all.subrange(0, i + 1);
            assert(next.drop_last() =~= prev);
            assert(next.last() == all[i as int]);
            match args[i].0 {
                ArgumentName::ArgumentKey(key) => {
                    let ty = match args[i].1 {
                        Some(s) => s.ty,
                        None => Type::Display,
                    };
                    r.push((key.clone(), ty));
                },
                _ => {},
            }
            i = i + 1;
        }
        assert(all.subrange(0, all.len() as int) =~= all);
        r
    }
}

/// The calls that follow the path of a reference from a generated value:
/// `.name()` for each identifier, by its `snake_case` name.
pub open spec fn reference_calls(path: Seq<Identifier>) -> Seq<char>
    decreases path.len(),
{
    if path.len() == 0 {
        Seq::empty()
    } else {
        reference_calls(path.drop_last()) + "."@ + snake_name_of(identifier_text(path.last())) + "()"@
    }
}

/// The expression by which a formatter whose template sits at the
/// modules `parent` of the component `root` reaches the value of a
/// reference from `origin` along `path`: from the root of the component,
/// from the struct that holds the template, from the context (whose
/// modules start with the component's), or from the application, whose
/// first module names the context.
pub open spec fn reference_access_text(parent: Seq<Seq<char>>, root: Seq<char>, origin: AstRefOrigin, path: Seq<Identifier>) -> Seq<char> {
    match origin {
        AstRefOrigin::RootNode => "self.context."@ + root + "()"@ + reference_calls(path),
        AstRefOrigin::SelfNode => "self.context."@ + access_text(seq![root] + parent) + reference_calls(path),
        AstRefOrigin::ContextNode => "self.context."@ + access_text(parent) + reference_calls(path),
        AstRefOrigin::I18nNode => "crate::I18n::"@ + uppercase(parent[0]) + "."@ + access_text(parent.drop_first()) + reference_calls(path),
    }
}

/// The references among `args`, in order, each with the type it is
/// formatted with.
pub open spec fn reference_arguments_of(args: Seq<(ArgumentName, Option<Specifier>)>) -> Seq<(AstRefOrigin, Seq<Identifier>, Type)>
    decreases args.len(),
{
    if args.len() == 0 {
        Seq::empty()
    } else {
        let rest = reference_arguments_of(args.drop_last());
        match args.last().0 {
            ArgumentName::Const(NameRef::Ast { origin, path }) => rest.push((origin, path@, argument_type(args.last().1))),
            _ => rest,
        }
    }
}

/// A reference from the application names a context: the template sits
/// below at least one module.
pub open spec fn references_reachable(parent: Seq<Seq<char>>, refs: Seq<(AstRefOrigin, Seq<Identifier>, Type)>) -> bool {
    forall|j: int| 0 <= j < refs.len() ==> (#[trigger] refs[j]).0 is I18nNode ==> parent.len() > 0
}

/// Appends the calls that follow `path` (see `reference_calls`).
fn push_reference_calls(out: &mut String, path: &Vec<Identifier>)
    ensures
        final(out)@ == old(out)@ + reference_calls(path@),
{
    let ghost start = out@;
    let mut i: usize = 0;
    assert(path@.subrange(0, 0) =~= Seq::<Identifier>::empty());
    while i < path.len()
        invariant
            i <= path@.len(),
            out@ == start + reference_calls(path@.subrange(0, i as int)),
        decreases path@.len() - i,
    {
        assert(path@.subrange(0, i + 1).drop_last() =~= path@.subrange(0, i as int));
        let name = NameSnakeCase::from_identifier(path[i].clone());
        push_str(out, ".");
        push_str(out, name.as_str());
        push_str(out, "()");
        assert(out@ =~= start + reference_calls(path@.subrange(0, i + 1)));
        i = i + 1;
    }
    assert(path@.subrange(0, path@.len() as int) =~= path@);
}

impl Format {
    /// The expression by which the generated formatter reaches the value of
    /// the reference from `origin` along `path` (see
    /// `reference_access_text`).
    pub fn reference_access_path(&self, origin: &AstRefOrigin, path: &Vec<Identifier>) -> (r: String)
        requires
            *origin is I18nNode ==> self.parent_path.mods_v().len() > 0,
        ensures
            r@ == reference_access_text(self.parent_path.mods_v(), self.root_name@, *origin, path@),
    {
        let mut r = String::new();
        match origin {
            AstRefOrigin::RootNode => {
                push_str(&mut r, "self.context.");
                push_str(&mut r, self.root_name.as_str());
                push_str(&mut r, "()");
            },
            AstRefOrigin::SelfNode => {
                push_str(&mut r, "self.context.");
                let p = self.parent_path.clone().prepend_mod(self.root_name.clone());
                push_str(&mut r, p.to_access_path().as_str());
            },
            AstRefOrigin::ContextNode => {
                push_str(&mut r, "self.context.");
                push_str(&mut r, self.parent_path.to_access_path().as_str());
            },
            AstRefOrigin::I18nNode => {
                let mut p = self.parent_path.clone();
                let context = p.pop_front().unwrap();
                push_str(&mut r, "crate::I18n::");
                push_str(&mut r, context.to_uppercase().as_str());
                push_str(&mut r, ".");
                push_str(&mut r, p.to_access_path().as_str());
            },
        }
        push_reference_calls(&mut r, path);
        r
    }

    /// The references of the template, in its order: each with the name it
    /// is handed to dfmt under, the expression that reaches its value, and
    /// the type it is formatted with.
    pub fn reference_arguments(&self) -> (r: Vec<(String, String, Type)>)
        requires
            references_reachable(self.parent_path.mods_v(), reference_arguments_of(arguments_of(self.template.0@))),
        ensures
            ({
                let refs = reference_arguments_of(arguments_of(self.template.0@));
                &&& r@.len() == refs.len()
                &&& forall|j: int| 0 <= j < refs.len() ==> {
                    &&& (#[trigger] r@[j]).0@ == reference_name(refs[j].0, refs[j].1)
                    &&& r@[j].1@ == reference_access_text(self.parent_path.mods_v(), self.root_name@, refs[j].0, refs[j].1)
                    &&& r@[j].2 == refs[j].2
                }
            }),
    {
        let args = self.template.arguments();
        let ghost all = arguments_of(self.template.0@);
        let ghost parent = self.parent_path.mods_v();
        let ghost root = self.root_name@;
        let mut r: Vec<(String, String, Type)> = Vec::new();
        let mut i: usize = 0;
        while i < args.len()
            invariant
                args@.len() == all.len(),
                all == arguments_of(self.template.0@),
                parent == self.parent_path.mods_v(),
                root == self.root_name@,
                references_reachable(parent, reference_arguments_of(all)),
                forall|k: int| 0 <= k < args@.len() ==> *(#[trigger] args@[k]).0 == all[k].0 && *args@[k].1 == all[k].1,
                i <= args@.len(),
                r@.len() == reference_arguments_of(all.subrange(0, i as int)).len(),
                forall|j: int| 0 <= j < r@.len() ==> {
                    let e = reference_arguments_of(all.subrange(0, i as int))[j];
                    &&& (#[trigger] r@[j]).0@ == reference_name(e.0, e.1)
                    &&& r@[j].1@ == reference_access_text(parent, root, e.0, e.1)
                    &&& r@[j].2 == e.2
                },
            decreases args@.len() - i,
        {
            let ghost prev = all.subrange(0, i as int);
            let ghost next = all.subrange(0, i + 1);
            assert(next.drop_last() =~= prev);
            assert(next.last() == all[i as int]);
            proof { lemma_reference_arguments_prefix(all, i as int + 1); }
            match args[i].0 {
                ArgumentName::Const(NameRef::Ast { origin, path }) => {
                    let ty = match args[i].1 {
                        Some(s) => s.ty,
                        None => Type::Display,
                    };
                    let ghost refs_next = reference_arguments_of(next);
                    assert(refs_next.last() == (*origin, path@, ty));
                    let name = reference_name_text(origin, path);
                    let access = self.reference_access_path(origin, path);
                    r.push((name, access, ty));
                },
                _ => {},
            }
            i = i + 1;
        }
        assert(all.subrange(0, all.len() as int) =~= all);
        r
    }
}

/// The references of a prefix of the arguments come first among those of
/// all the arguments.
proof fn lemma_reference_arguments_prefix(all: Seq<(ArgumentName, Option<Specifier>)>, n: int)
    requires
        0 <= n <= all.len(),
    ensures
        reference_arguments_of(all.subrange(0, n)).len() <= reference_arguments_of(all).len(),
        forall|j: int| 0 <= j < reference_arguments_of(all.subrange(0, n)).len() ==>
            #[trigger] reference_arguments_of(all.subrange(0, n))[j] == reference_arguments_of(all)[j],
    decreases all.len() - n,
{
    if n < all.len() {
        lemma_reference_arguments_prefix(all, n + 1);
        let a = all.subrange(0, n);
        let b = all.subrange(0, n + 1);
        assert(b.drop_last() =~= a);
        assert forall|j: int| 0 <= j < reference_arguments_of(a).len() implies
            #[trigger] reference_arguments_of(a)[j] == reference_arguments_of(all)[j] by {
            assert(reference_arguments_of(a)[j] == reference_arguments_of(b)[j]);
        }
    } else {
        assert(all.subrange(0, n) =~= all);
    }
}

/// The order of argument keys: positions before names, positions by
/// value, names by their text.
pub open spec fn key_less(a: ArgumentKey, b: ArgumentKey) -> bool {
    match (a, b) {
        (ArgumentKey::Index(x), ArgumentKey::Index(y)) => x < y,
        (ArgumentKey::Index(_), ArgumentKey::Name(_)) => true,
        (ArgumentKey::Name(x), ArgumentKey::Name(y)) => text_less(x@, y@),
        _ => false,
    }
}

/// The order of keys is transitive.
pub proof fn lemma_key_less_transitive(a: ArgumentKey, b: ArgumentKey, c: ArgumentKey)
    requires
        key_less(a, b),
        key_less(b, c),
    ensures
        key_less(a, c),
{
    match (a, b, c) {
        (ArgumentKey::Name(x), ArgumentKey::Name(y), ArgumentKey::Name(z)) => lemma_text_less_transitive(x@, y@, z@),
        _ => {},
    }
}

/// No key comes before itself.
pub proof fn lemma_key_less_irreflexive(a: ArgumentKey)
    ensures
        !key_less(a, a),
{
    if let ArgumentKey::Name(x) = a {
        lemma_text_less_irreflexive(x@);
    }
}

/// Whether the key `a` comes before the key `b`.
pub fn key_is_less(a: &ArgumentKey, b: &ArgumentKey) -> (r: bool)
    ensures
        r == key_less(*a, *b),
{
    match (a, b) {
        (ArgumentKey::Index(x), ArgumentKey::Index(y)) => *x < *y,
        (ArgumentKey::Index(_), ArgumentKey::Name(_)) => true,
        (ArgumentKey::Name(x), ArgumentKey::Name(y)) => text_is_less(x.as_str(), y.as_str()),
        _ => false,
    }
}

/// Taking the arguments in the order `order`, their keys never go down.
pub open spec fn keys_sorted_by(args: Seq<(ArgumentKey, Type)>, order: Seq<int>) -> bool {
    forall|i: int, j: int| 0 <= i < j < order.len() ==> !key_less(#[trigger] args[order[j]].0, #[trigger] args[order[i]].0)
}

/// The order of `args` by which their keys are sorted.
pub fn key_sorting_order(args: &Vec<(ArgumentKey, Type)>) -> (r: Vec<usize>)
    ensures
        is_permutation(r@.map_values(|i: usize| i as int), args@.len() as int),
        keys_sorted_by(args@, r@.map_values(|i: usize| i as int)),
{
    let ghost kv = args@;
    let mut r: Vec<usize> = Vec::new();
    let mut n: usize = 0;
    while n < args.len()
        invariant
            kv == args@,
            n <= args@.len(),
            is_permutation(r@.map_values(|i: usize| i as int), n as int),
            keys_sorted_by(kv, r@.map_values(|i: usize| i as int)),
        decreases args@.len() - n,
    {
        let ghost before = r@.map_values(|i: usize| i as int);
        assert forall|a: int| 0 <= a < r@.len() implies #[trigger] r@[a] < n by {
            assert(before[a] == r@[a] as int);
        }
        let mut p: usize = 0;
        while p < r.len() && !key_is_less(&args[n].0, &args[r[p]].0)
            invariant
                kv == args@,
                n < args@.len(),
                p <= r@.len(),
                before == r@.map_values(|i: usize| i as int),
                is_permutation(before, n as int),
                forall|a: int| 0 <= a < r@.len() ==> #[trigger] r@[a] < n,
                forall|a: int| 0 <= a < p ==> !key_less(kv[n as int].0, #[trigger] kv[before[a]].0),
            decreases r@.len() - p,
        {
            assert(kv[before[p as int]] == args@[r@[p as int] as int]);
            p = p + 1;
        }
        proof {
            if p < r@.len() {
                assert(kv[before[p as int]] == args@[r@[p as int] as int]);
                assert(key_less(kv[n as int].0, kv[before[p as int]].0));
            }
        }
        r.insert(p, n);
        proof {
            let after = r@.map_values(|i: usize| i as int);
            assert(after =~= before.take(p as int) + seq![n as int] + before.skip(p as int));
            assert forall|i: int| 0 <= i < after.len() implies 0 <= #[trigger] after[i] < n + 1 by {
                if i < p {
                    assert(after[i] == before[i]);
                } else if i > p {
                    assert(after[i] == before[i - 1]);
                }
            }
            assert forall|i: int, j: int| 0 <= i < j < after.len() implies #[trigger] after[i] != #[trigger] after[j] by {
                if i < p && j < p {
                    assert(after[i] == before[i] && after[j] == before[j]);
                } else if i < p && j == p {
                    assert(after[i] == before[i]);
                } else if i < p {
                    assert(after[i] == before[i] && after[j] == before[j - 1]);
                } else if i == p {
                    assert(after[j] == before[j - 1]);
                } else {
                    assert(after[i] == before[i - 1] && after[j] == before[j - 1]);
                }
            }
            assert forall|i: int, j: int| 0 <= i < j < after.len() implies !key_less(#[trigger] kv[after[j]].0, #[trigger] kv[after[i]].0) by {
                if i < p && j < p {
                    assert(after[i] == before[i] && after[j] == before[j]);
                } else if i < p && j == p {
                    assert(after[i] == before[i]);
                } else if i < p {
                    assert(after[i] == before[i] && after[j] == before[j - 1]);
                } else if i == p {
                    assert(after[j] == before[j - 1]);
                    assert(after[p as int] == n as int);
                    if key_less(kv[before[j - 1]].0, kv[n as int].0) {
                        lemma_key_less_transitive(kv[before[j - 1]].0, kv[n as int].0, kv[before[p as int]].0);
                        if j - 1 > p {
                            assert(!key_less(kv[before[j - 1]].0, kv[before[p as int]].0));
                        } else {
                            lemma_key_less_irreflexive(kv[before[p as int]].0);
                        }
                    }
                } else {
                    assert(after[i] == before[i - 1] && after[j] == before[j - 1]);
                }
            }
        }
        n = n + 1;
    }
    r
}

/// A parameter of the generated `format` function: the key it fills, the
/// type it is formatted with, and its name (`arg_` and the key).
pub struct FormatArgument {
    pub key: ArgumentKey,
    pub ty: Type,
    pub name: String,
}

/// The name of the parameter for the key `k`.
pub open spec fn parameter_name(k: ArgumentKey) -> Seq<char> {
    seq!['a', 'r', 'g', '_'] + key_text(k)
}

impl Format {
    /// The parameters of the generated `format` function: the arguments
    /// that the caller passes, sorted by their keys, each with its type and
    /// its parameter name.
    pub fn format_arguments(&self) -> (r: Vec<FormatArgument>)
        ensures
            ({
                let args = key_arguments(arguments_of(self.template.0@));
                &&& r@.len() == args.len()
                &&& exists|order: Seq<int>| #![trigger keys_sorted_by(args, order)]
                    is_permutation(order, args.len() as int) && keys_sorted_by(args, order)
                    && forall|j: int| 0 <= j < args.len() ==> {
                        &&& (#[trigger] r@[j]).key == args[order[j]].0
                        &&& r@[j].ty == args[order[j]].1
                        &&& r@[j].name@ == parameter_name(args[order[j]].0)
                    }
            }),
    {
        let args = self.caller_arguments();
        let order = key_sorting_order(&args);
        let ghost ord = order@.map_values(|i: usize| i as int);
        let mut r: Vec<FormatArgument> = Vec::new();
        let mut j: usize = 0;
        while j < order.len()
            invariant
                ord == order@.map_values(|i: usize| i as int),
                is_permutation(ord, args@.len() as int),
                j <= order@.len(),
                r@.len() == j,
                forall|m: int| 0 <= m < j ==> {
                    &&& (#[trigger] r@[m]).key == args@[ord[m]].0
                    &&& r@[m].ty == args@[ord[m]].1
                    &&& r@[m].name@ == parameter_name(args@[ord[m]].0)
                },
            decreases order@.len() - j,
        {
            let k = order[j];
            assert(ord[j as int] == k as int);
            let mut name = String::new();
            push_chars(&mut name, &['a', 'r', 'g', '_']);
            args[k].0.write_to(&mut name);
            assert(name@ =~= parameter_name(args@[k as int].0));
            r.push(FormatArgument { key: args[k].0.clone(), ty: args[k].1, name });
            j = j + 1;
        }
        assert(keys_sorted_by(args@, ord));
        r
    }
}

/// The name of a formatting trait, as `Debug` shows the type.
pub open spec fn trait_name(t: Type) -> Seq<char> {
    match t {
        Type::Binary => seq!['B', 'i', 'n', 'a', 'r', 'y'],
        Type::Octal => seq!['O', 'c', 't', 'a', 'l'],
        Type::LowerHex => seq!['L', 'o', 'w', 'e', 'r', 'H', 'e', 'x'],
        Type::UpperHex => seq!['U', 'p', 'p', 'e', 'r', 'H', 'e', 'x'],
        Type::Pointer => seq!['P', 'o', 'i', 'n', 't', 'e', 'r'],
        Type::LowerExp => seq!['L', 'o', 'w', 'e', 'r', 'E', 'x', 'p'],
        Type::UpperExp => seq!['U', 'p', 'p', 'e', 'r', 'E', 'x', 'p'],
        Type::Debug => seq!['D', 'e', 'b', 'u', 'g'],
        Type::Display => seq!['D', 'i', 's', 'p', 'l', 'a', 'y'],
    }
}

/// The name of the formatting trait of the type `t`.
pub fn trait_name_of(t: Type) -> (r: String)
    ensures
        r@ == trait_name(t),
{
    match t {
        Type::Binary => string_of(&['B', 'i', 'n', 'a', 'r', 'y']),
        Type::Octal => string_of(&['O', 'c', 't', 'a', 'l']),
        Type::LowerHex => string_of(&['L', 'o', 'w', 'e', 'r', 'H', 'e', 'x']),
        Type::UpperHex => string_of(&['U', 'p', 'p', 'e', 'r', 'H', 'e', 'x']),
        Type::Pointer => string_of(&['P', 'o', 'i', 'n', 't', 'e', 'r']),
        Type::LowerExp => string_of(&['L', 'o', 'w', 'e', 'r', 'E', 'x', 'p']),
        Type::UpperExp => string_of(&['U', 'p', 'p', 'e', 'r', 'E', 'x', 'p']),
        Type::Debug => string_of(&['D', 'e', 'b', 'u', 'g']),
        Type::Display => string_of(&['D', 'i', 's', 'p', 'l', 'a', 'y']),
    }
}

/// The type of a parameter formatted with `t`: a reference to a trait
/// object of `core::fmt`.
pub open spec fn parameter_type(t: Type) -> Seq<char> {
    seq!['&', 'd', 'y', 'n', ' ', 'c', 'o', 'r', 'e', ':', ':', 'f', 'm', 't', ':', ':'] + trait_name(t)
}

impl FormatArgument {
    /// The parameter's type as written in the generated code.
    pub fn parameter_type(&self) -> (r: String)
        ensures
            r@ == parameter_type(self.ty),
    {
        let mut out = String::new();
        push_chars(&mut out, &['&', 'd', 'y', 'n', ' ', 'c', 'o', 'r', 'e', ':', ':', 'f', 'm', 't', ':', ':']);
        let t = trait_name_of(self.ty);
        push_str(&mut out, t.as_str());
        out
    }
}

} // verus!
