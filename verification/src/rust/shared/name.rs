use vstd::prelude::*;

use crate::case::{
    ascii_lower, ascii_upper, is_ascii, is_ascii_lower, char_is_ascii_upper, char_is_lowercase, char_is_uppercase, char_to_uppercase, char_uppercase,
    is_ascii_upper, is_lowercase, is_uppercase, lowercase, to_lowercase, to_uppercase, uppercase,
};
use crate::identifier::Identifier;
use crate::text::{chars_of, decimal, push_char, push_chars, push_decimal, push_str, string_of};

verus! {

/// A name in `PascalCase`, as used for the generated types.
pub struct NamePascalCase(pub String);

/// A name in `snake_case`, as used for the generated modules, fields and
/// functions.
pub struct NameSnakeCase(pub String);

impl View for NamePascalCase {
    type V = Seq<char>;

    open spec fn view(&self) -> Seq<char> {
        self.0@
    }
}

impl View for NameSnakeCase {
    type V = Seq<char>;

    open spec fn view(&self) -> Seq<char> {
        self.0@
    }
}

impl Clone for NamePascalCase {
    fn clone(&self) -> (r: Self)
        ensures
            r@ == self@,
    {
        NamePascalCase(self.0.clone())
    }
}

impl Clone for NameSnakeCase {
    fn clone(&self) -> (r: Self)
        ensures
            r@ == self@,
    {
        NameSnakeCase(self.0.clone())
    }
}

impl PartialEq for NameSnakeCase {
    fn eq(&self, other: &Self) -> (r: bool) {
        self.0 == other.0
    }
}

impl vstd::std_specs::cmp::PartialEqSpecImpl for NameSnakeCase {
    open spec fn obeys_eq_spec() -> bool {
        true
    }

    open spec fn eq_spec(&self, other: &Self) -> bool {
        self@ == other@
    }
}

impl Eq for NameSnakeCase {
}

/// The parts of `s` between the separators `sep`, as `str::split` yields
/// them (one empty part for an empty `s`).
pub open spec fn split_parts(s: Seq<char>, sep: char) -> Seq<Seq<char>>
    decreases s.len(),
{
    if s.len() == 0 {
        seq![Seq::empty()]
    } else {
        let parts = split_parts(s.drop_last(), sep);
        if s.last() == sep {
            parts.push(Seq::empty())
        } else {
            parts.update(parts.len() - 1, parts.last().push(s.last()))
        }
    }
}

pub proof fn lemma_split_parts_len(s: Seq<char>, sep: char)
    ensures
        split_parts(s, sep).len() >= 1,
    decreases s.len(),
{
    if s.len() > 0 {
        lemma_split_parts_len(s.drop_last(), sep);
    }
}

/// The last part after a separator is the last part of what follows it.
pub proof fn lemma_last_part_after_separator(s: Seq<char>, y: Seq<char>, sep: char)
    ensures
        split_parts(s.push(sep) + y, sep).last() == split_parts(y, sep).last(),
    decreases y.len(),
{
    lemma_split_parts_len(s.push(sep) + y, sep);
    lemma_split_parts_len(y, sep);
    if y.len() == 0 {
        assert(s.push(sep) + y =~= s.push(sep));
        assert((s.push(sep)).drop_last() =~= s);
    } else {
        let t = s.push(sep) + y;
        assert(t.drop_last() =~= s.push(sep) + y.drop_last());
        assert(t.last() == y.last());
        lemma_last_part_after_separator(s, y.drop_last(), sep);
        lemma_split_parts_len(t.drop_last(), sep);
        lemma_split_parts_len(y.drop_last(), sep);
    }
}

/// Lowering ASCII letters, which keeps the underscores where they are,
/// lowers the last part.
pub proof fn lemma_last_part_lowered(s: Seq<char>)
    ensures
        split_parts(s.map_values(|c: char| ascii_lower(c)), '_').last()
            == split_parts(s, '_').last().map_values(|c: char| ascii_lower(c)),
    decreases s.len(),
{
    let m = s.map_values(|c: char| ascii_lower(c));
    lemma_split_parts_len(m, '_');
    lemma_split_parts_len(s, '_');
    if s.len() == 0 {
        assert(m =~= Seq::<char>::empty());
        assert(split_parts(s, '_').last() =~= Seq::<char>::empty());
        assert(split_parts(s, '_').last().map_values(|c: char| ascii_lower(c)) =~= Seq::<char>::empty());
    } else {
        assert(m.drop_last() =~= s.drop_last().map_values(|c: char| ascii_lower(c)));
        assert(m.last() == ascii_lower(s.last()));
        lemma_last_part_lowered(s.drop_last());
        lemma_split_parts_len(m.drop_last(), '_');
        lemma_split_parts_len(s.drop_last(), '_');
        if s.last() != '_' {
            let prev = split_parts(s.drop_last(), '_').last();
            assert(prev.push(s.last()).map_values(|c: char| ascii_lower(c))
                =~= prev.map_values(|c: char| ascii_lower(c)).push(ascii_lower(s.last())));
        } else {
            assert(Seq::<char>::empty().map_values(|c: char| ascii_lower(c)) =~= Seq::<char>::empty());
        }
    }
}

/// The last part of two ASCII names joined by an underscore (as `concat`
/// joins them, then lowers the letters) is the last part of the second
/// name, lowered.
pub proof fn law_last_part_of_concat(x: Seq<char>, y: Seq<char>)
    ensures
        split_parts((x + seq!['_'] + y).map_values(|c: char| ascii_lower(c)), '_').last()
            == split_parts(y, '_').last().map_values(|c: char| ascii_lower(c)),
{
    lemma_last_part_lowered(x + seq!['_'] + y);
    assert(x + seq!['_'] + y =~= x.push('_') + y);
    lemma_last_part_after_separator(x, y, '_');
}

/// An ASCII part with its first letter in uppercase and the others in
/// lowercase.
pub open spec fn ascii_capitalized(part: Seq<char>) -> Seq<char> {
    if part.len() == 0 {
        Seq::empty()
    } else {
        seq![ascii_upper(part[0])] + part.drop_first().map_values(|c: char| ascii_lower(c))
    }
}

/// ASCII parts, each capitalized, one after the other.
pub open spec fn ascii_join_capitalized(parts: Seq<Seq<char>>) -> Seq<char>
    decreases parts.len(),
{
    if parts.len() == 0 {
        Seq::empty()
    } else {
        ascii_join_capitalized(parts.drop_last()) + ascii_capitalized(parts.last())
    }
}

/// The `PascalCase` form of an ASCII `snake_case` name.
pub open spec fn ascii_pascal(s: Seq<char>) -> Seq<char> {
    ascii_join_capitalized(split_parts(s, '_'))
}

/// One step of reading an ASCII `PascalCase` name: an underscore goes
/// before an uppercase letter that follows a lowercase one.
pub open spec fn scan_step(st: (Seq<char>, bool), c: char) -> (Seq<char>, bool) {
    if is_ascii_upper(c) && st.1 {
        (st.0.push('_').push(c), false)
    } else if is_ascii_lower(c) {
        (st.0.push(c), true)
    } else {
        (st.0.push(c), st.1)
    }
}

/// Reading the ASCII characters `s` from the state `st`.
pub open spec fn scan_from(st: (Seq<char>, bool), s: Seq<char>) -> (Seq<char>, bool)
    decreases s.len(),
{
    if s.len() == 0 {
        st
    } else {
        scan_step(scan_from(st, s.drop_last()), s.last())
    }
}

/// The `snake_case` form of an ASCII `PascalCase` name.
pub open spec fn ascii_snake(s: Seq<char>) -> Seq<char> {
    scan_from((Seq::empty(), false), s).0.map_values(|c: char| ascii_lower(c))
}

/// Reading ASCII characters from an ASCII state gives ASCII text.
pub proof fn lemma_scan_ascii(st: (Seq<char>, bool), s: Seq<char>)
    requires
        is_ascii(st.0),
        is_ascii(s),
    ensures
        is_ascii(scan_from(st, s).0),
    decreases s.len(),
{
    if s.len() > 0 {
        assert(is_ascii(s.drop_last())) by {
            assert forall|j: int| 0 <= j < s.drop_last().len() implies (#[trigger] s.drop_last()[j] as int) < 128 by {
                assert(s.drop_last()[j] == s[j]);
            }
        }
        lemma_scan_ascii(st, s.drop_last());
        let prev = scan_from(st, s.drop_last());
        let c = s.last();
        assert((c as int) < 128);
        let next = scan_from(st, s);
        assert forall|j: int| 0 <= j < next.0.len() implies (#[trigger] next.0[j] as int) < 128 by {
            if j < prev.0.len() {
                if is_ascii_upper(c) && prev.1 {
                    assert(next.0 == prev.0.push('_').push(c));
                    assert(next.0[j] == prev.0[j]);
                } else {
                    assert(next.0[j] == prev.0[j]);
                }
            }
        }
    }
}

/// Lowering the letters of ASCII text gives ASCII text, and lowering
/// twice is lowering once.
pub proof fn lemma_lower_ascii(s: Seq<char>)
    requires
        is_ascii(s),
    ensures
        is_ascii(s.map_values(|c: char| ascii_lower(c))),
        s.map_values(|c: char| ascii_lower(c)).map_values(|c: char| ascii_lower(c)) == s.map_values(|c: char| ascii_lower(c)),
{
    let m = s.map_values(|c: char| ascii_lower(c));
    assert forall|j: int| 0 <= j < m.len() implies (#[trigger] m[j] as int) < 128 && ascii_lower(m[j]) == m[j] by {
        assert((s[j] as int) < 128);
    }
    assert(m.map_values(|c: char| ascii_lower(c)) =~= m);
}

/// The parts joined by underscores.
pub open spec fn joined_parts(parts: Seq<Seq<char>>) -> Seq<char>
    decreases parts.len(),
{
    if parts.len() == 0 {
        Seq::empty()
    } else if parts.len() == 1 {
        parts[0]
    } else {
        joined_parts(parts.drop_last()).push('_') + parts.last()
    }
}

/// Parts of a `snake_case` name as the generated names have them: at least
/// one, each of at least two ASCII lowercase letters.
pub open spec fn lowercase_parts(parts: Seq<Seq<char>>) -> bool {
    &&& parts.len() >= 1
    &&& forall|i: int| 0 <= i < parts.len() ==> (#[trigger] parts[i]).len() >= 2
        && forall|j: int| 0 <= j < parts[i].len() ==> is_ascii_lower(parts[i][j])
}

/// Each part capitalized.
pub open spec fn capitalized_parts(parts: Seq<Seq<char>>) -> Seq<Seq<char>> {
    parts.map_values(|p: Seq<char>| ascii_capitalized(p))
}

proof fn lemma_split_after_separator(x: Seq<char>, y: Seq<char>)
    requires
        !y.contains('_'),
    ensures
        split_parts(x.push('_') + y, '_') == split_parts(x, '_').push(y),
    decreases y.len(),
{
    if y.len() == 0 {
        assert(x.push('_') + y =~= x.push('_'));
        assert(x.push('_').drop_last() =~= x);
        assert(x.push('_').last() == '_');
        assert(split_parts(x.push('_'), '_') == split_parts(x, '_').push(Seq::empty()));
        assert(y =~= Seq::<char>::empty());
    } else {
        let t = x.push('_') + y;
        assert(t.drop_last() =~= x.push('_') + y.drop_last());
        assert(!y.drop_last().contains('_')) by {
            if y.drop_last().contains('_') {
                let j = choose|j: int| 0 <= j < y.drop_last().len() && y.drop_last()[j] == '_';
                assert(y[j] == '_');
            }
        }
        lemma_split_after_separator(x, y.drop_last());
        assert(y.last() != '_') by {
            assert(y[y.len() - 1] == y.last());
        }
        assert(t.last() == y.last());
        assert(y.drop_last().push(y.last()) =~= y);
        let prev = split_parts(x, '_').push(y.drop_last());
        assert(split_parts(t.drop_last(), '_') == prev);
        assert(prev.last() == y.drop_last());
        assert(prev.update(prev.len() - 1, prev.last().push(y.last())) =~= split_parts(x, '_').push(y));
        assert(split_parts(t, '_') == prev.update(prev.len() - 1, prev.last().push(t.last())));
    }
}

proof fn lemma_split_single(y: Seq<char>)
    requires
        !y.contains('_'),
    ensures
        split_parts(y, '_') == seq![y],
    decreases y.len(),
{
    if y.len() > 0 {
        assert(!y.drop_last().contains('_')) by {
            if y.drop_last().contains('_') {
                let j = choose|j: int| 0 <= j < y.drop_last().len() && y.drop_last()[j] == '_';
                assert(y[j] == '_');
            }
        }
        lemma_split_single(y.drop_last());
        assert(y.last() != '_') by {
            assert(y[y.len() - 1] == y.last());
        }
        assert(y.drop_last().push(y.last()) =~= y);
        let prev = split_parts(y.drop_last(), '_');
        assert(prev == seq![y.drop_last()]);
        assert(prev.last() == y.drop_last());
        assert(prev.update(0, y.drop_last().push(y.last())) =~= seq![y]);
        assert(split_parts(y, '_') == prev.update(prev.len() - 1, prev.last().push(y.last())));
    } else {
        assert(y =~= Seq::<char>::empty());
    }
}

proof fn lemma_part_no_separator(parts: Seq<Seq<char>>, i: int)
    requires
        lowercase_parts(parts),
        0 <= i < parts.len(),
    ensures
        !parts[i].contains('_'),
{
    if parts[i].contains('_') {
        let j = choose|j: int| 0 <= j < parts[i].len() && parts[i][j] == '_';
        assert(is_ascii_lower(parts[i][j]));
    }
}

proof fn lemma_split_joined(parts: Seq<Seq<char>>)
    requires
        lowercase_parts(parts),
    ensures
        split_parts(joined_parts(parts), '_') == parts,
    decreases parts.len(),
{
    lemma_part_no_separator(parts, parts.len() - 1);
    if parts.len() == 1 {
        lemma_split_single(parts[0]);
        assert(seq![parts[0]] =~= parts);
    } else {
        let init = parts.drop_last();
        assert(lowercase_parts(init)) by {
            assert forall|i: int| 0 <= i < init.len() implies (#[trigger] init[i]).len() >= 2
                && forall|j: int| 0 <= j < init[i].len() ==> is_ascii_lower(init[i][j]) by {
                assert(init[i] == parts[i]);
            }
        }
        lemma_split_joined(init);
        lemma_split_after_separator(joined_parts(init), parts.last());
        assert(init.push(parts.last()) =~= parts);
    }
}

proof fn lemma_scan_concat(st: (Seq<char>, bool), x: Seq<char>, y: Seq<char>)
    ensures
        scan_from(st, x + y) == scan_from(scan_from(st, x), y),
    decreases y.len(),
{
    if y.len() == 0 {
        assert(x + y =~= x);
    } else {
        assert((x + y).drop_last() =~= x + y.drop_last());
        assert((x + y).last() == y.last());
        lemma_scan_concat(st, x, y.drop_last());
    }
}

proof fn lemma_scan_lower_run(st: (Seq<char>, bool), r: Seq<char>)
    requires
        forall|j: int| 0 <= j < r.len() ==> is_ascii_lower(#[trigger] r[j]),
    ensures
        scan_from(st, r) == (st.0 + r, if r.len() > 0 { true } else { st.1 }),
    decreases r.len(),
{
    if r.len() == 0 {
        assert(st.0 + r =~= st.0);
    } else {
        lemma_scan_lower_run(st, r.drop_last());
        assert(is_ascii_lower(r.last()));
        assert((st.0 + r.drop_last()).push(r.last()) =~= st.0 + r);
    }
}

proof fn lemma_capitalized_of_lower(p: Seq<char>)
    requires
        p.len() >= 1,
        forall|j: int| 0 <= j < p.len() ==> is_ascii_lower(#[trigger] p[j]),
    ensures
        is_ascii_upper(ascii_upper(p[0])),
        ascii_lower(ascii_upper(p[0])) == p[0],
        ascii_capitalized(p) == seq![ascii_upper(p[0])] + p.drop_first(),
        ascii_capitalized(p).map_values(|c: char| ascii_lower(c)) == p,
{
    assert(is_ascii_lower(p[0]));
    assert(p.drop_first().map_values(|c: char| ascii_lower(c)) =~= p.drop_first()) by {
        assert forall|j: int| 0 <= j < p.drop_first().len() implies #[trigger] ascii_lower(p.drop_first()[j]) == p.drop_first()[j] by {
            assert(is_ascii_lower(p[j + 1]));
        }
    }
    assert(ascii_capitalized(p).map_values(|c: char| ascii_lower(c)) =~= p) by {
        assert forall|j: int| 0 < j < p.len() implies #[trigger] ascii_lower(p[j]) == p[j] by {
            assert(is_ascii_lower(p[j]));
        }
    }
}

proof fn lemma_scan_capitalized(st: (Seq<char>, bool), p: Seq<char>)
    requires
        p.len() >= 2,
        forall|j: int| 0 <= j < p.len() ==> is_ascii_lower(#[trigger] p[j]),
    ensures
        scan_from(st, ascii_capitalized(p)) == ((if st.1 { st.0.push('_') } else { st.0 }) + ascii_capitalized(p), true),
{
    lemma_capitalized_of_lower(p);
    let u = ascii_upper(p[0]);
    let rest = p.drop_first();
    lemma_scan_concat(st, seq![u], rest);
    assert(seq![u].drop_last() =~= Seq::<char>::empty());
    assert(scan_from(st, Seq::<char>::empty()) == st);
    assert(seq![u].last() == u);
    assert(scan_from(st, seq![u]) == scan_step(st, u));
    assert forall|j: int| 0 <= j < rest.len() implies is_ascii_lower(#[trigger] rest[j]) by {
        assert(rest[j] == p[j + 1]);
    }
    let st2 = scan_step(st, u);
    lemma_scan_lower_run(st2, rest);
    if st.1 {
        assert(st2.0 + rest =~= st.0.push('_') + (seq![u] + rest));
    } else {
        assert(st2.0 + rest =~= st.0 + (seq![u] + rest));
    }
}

proof fn lemma_lowercase_parts_init(parts: Seq<Seq<char>>)
    requires
        lowercase_parts(parts),
        parts.len() >= 2,
    ensures
        lowercase_parts(parts.drop_last()),
{
    let init = parts.drop_last();
    assert forall|i: int| 0 <= i < init.len() implies (#[trigger] init[i]).len() >= 2
        && forall|j: int| 0 <= j < init[i].len() ==> is_ascii_lower(init[i][j]) by {
        assert(init[i] == parts[i]);
    }
}

proof fn lemma_scan_join(parts: Seq<Seq<char>>)
    requires
        lowercase_parts(parts),
    ensures
        scan_from((Seq::empty(), false), ascii_join_capitalized(parts)) == (joined_parts(capitalized_parts(parts)), true),
    decreases parts.len(),
{
    let last = parts.last();
    assert(last == parts[parts.len() - 1]);
    assert(forall|j: int| 0 <= j < last.len() ==> is_ascii_lower(#[trigger] last[j]));
    let caps = capitalized_parts(parts);
    if parts.len() == 1 {
        assert(parts.drop_last() =~= Seq::<Seq<char>>::empty());
        assert(ascii_join_capitalized(parts.drop_last()) == Seq::<char>::empty());
        assert(ascii_join_capitalized(parts) =~= ascii_capitalized(last));
        lemma_scan_capitalized((Seq::empty(), false), last);
        assert(Seq::<char>::empty() + ascii_capitalized(last) =~= ascii_capitalized(last));
        assert(caps[0] == ascii_capitalized(last));
    } else {
        let init = parts.drop_last();
        lemma_lowercase_parts_init(parts);
        lemma_scan_join(init);
        lemma_scan_concat((Seq::empty(), false), ascii_join_capitalized(init), ascii_capitalized(last));
        lemma_scan_capitalized((joined_parts(capitalized_parts(init)), true), last);
        assert(caps.drop_last() =~= capitalized_parts(init));
        assert(caps.last() == ascii_capitalized(last));
    }
}

proof fn lemma_lower_joined_caps(parts: Seq<Seq<char>>)
    requires
        lowercase_parts(parts),
    ensures
        joined_parts(capitalized_parts(parts)).map_values(|c: char| ascii_lower(c)) == joined_parts(parts),
        is_ascii(joined_parts(parts)),
    decreases parts.len(),
{
    let last = parts.last();
    assert(last == parts[parts.len() - 1]);
    assert(forall|j: int| 0 <= j < last.len() ==> is_ascii_lower(#[trigger] last[j]));
    lemma_capitalized_of_lower(last);
    let caps = capitalized_parts(parts);
    if parts.len() == 1 {
        assert(caps[0] == ascii_capitalized(last));
        assert(is_ascii(last)) by {
            assert forall|j: int| 0 <= j < last.len() implies (#[trigger] last[j] as int) < 128 by {
                assert(is_ascii_lower(last[j]));
            }
        }
    } else {
        let init = parts.drop_last();
        lemma_lowercase_parts_init(parts);
        lemma_lower_joined_caps(init);
        assert(caps.drop_last() =~= capitalized_parts(init));
        assert(caps.last() == ascii_capitalized(last));
        let a = joined_parts(capitalized_parts(init));
        assert((a.push('_') + ascii_capitalized(last)).map_values(|c: char| ascii_lower(c))
            =~= a.map_values(|c: char| ascii_lower(c)).push('_') + ascii_capitalized(last).map_values(|c: char| ascii_lower(c)));
        let j = joined_parts(parts);
        assert(is_ascii(j)) by {
            let b = joined_parts(init);
            assert forall|k: int| 0 <= k < j.len() implies (#[trigger] j[k] as int) < 128 by {
                if k < b.len() {
                    assert(j[k] == b[k]);
                } else if k > b.len() {
                    assert(j[k] == last[k - b.len() - 1]);
                    assert(is_ascii_lower(last[k - b.len() - 1]));
                }
            }
        }
    }
}

/// Converting a `snake_case` name to `PascalCase` and back gives it back,
/// for names whose parts each have at least two ASCII lowercase letters
/// (a part of one letter would run into the next once capitalized).
pub proof fn law_pascal_then_snake(parts: Seq<Seq<char>>)
    requires
        lowercase_parts(parts),
    ensures
        is_ascii(joined_parts(parts)),
        ascii_pascal(joined_parts(parts)) == ascii_join_capitalized(parts),
        ascii_snake(ascii_pascal(joined_parts(parts))) == joined_parts(parts),
{
    lemma_split_joined(parts);
    lemma_scan_join(parts);
    lemma_lower_joined_caps(parts);
}

/// A part with its first character in uppercase and the rest in lowercase.
pub open spec fn capitalized(part: Seq<char>) -> Seq<char> {
    if part.len() == 0 {
        Seq::empty()
    } else {
        char_uppercase(part[0]) + lowercase(part.drop_first())
    }
}

/// The parts, each capitalized, one after the other.
pub open spec fn join_capitalized(parts: Seq<Seq<char>>) -> Seq<char>
    decreases parts.len(),
{
    if parts.len() == 0 {
        Seq::empty()
    } else {
        join_capitalized(parts.drop_last()) + capitalized(parts.last())
    }
}

/// The `PascalCase` form of a `snake_case` name: each part between
/// underscores capitalized, without the underscores.
pub open spec fn pascal_text(s: Seq<char>) -> Seq<char> {
    join_capitalized(split_parts(s, '_'))
}

/// The name `s` with an underscore before every uppercase character that
/// follows a lowercase one (counting from the last underscore so placed),
/// and whether a lowercase character has been met since.
pub open spec fn snake_scan(s: Seq<char>) -> (Seq<char>, bool)
    decreases s.len(),
{
    if s.len() == 0 {
        (Seq::empty(), false)
    } else {
        let (out, met_lower) = snake_scan(s.drop_last());
        let c = s.last();
        if is_uppercase(c) && met_lower {
            (out.push('_').push(c), false)
        } else if is_lowercase(c) {
            (out.push(c), true)
        } else {
            (out.push(c), met_lower)
        }
    }
}

/// The `snake_case` form of a `PascalCase` name.
pub open spec fn snake_text(s: Seq<char>) -> Seq<char> {
    lowercase(lowercase(snake_scan(s).0))
}

/// The `snake_case` name made from `s`: a `PascalCase` name (no underscore,
/// an ASCII uppercase letter first) is converted, anything else lowercased.
pub open spec fn snake_name_of(s: Seq<char>) -> Seq<char> {
    if !s.contains('_') && s.len() > 0 && is_ascii_upper(s[0]) {
        snake_text(s)
    } else {
        lowercase(s)
    }
}

/// The `PascalCase` name made from `s`: a name with an underscore is read
/// as a `snake_case` name and converted, anything else is kept.
pub open spec fn pascal_name_of(s: Seq<char>) -> Seq<char> {
    if s.contains('_') {
        pascal_text(lowercase(s))
    } else {
        s
    }
}

/// The text of a name made from an identifier: the field's name, or
/// `tuple_index` / `array_index` and the index.
pub open spec fn identifier_text(id: Identifier) -> Seq<char> {
    match id {
        Identifier::Field(name) => name@,
        Identifier::TupleIndex(i) => tuple_index_text() + decimal(i as nat),
        Identifier::ArrayIndex(i) => array_index_text() + decimal(i as nat),
    }
}

pub open spec fn tuple_index_text() -> Seq<char> {
    seq!['t', 'u', 'p', 'l', 'e', '_', 'i', 'n', 'd', 'e', 'x']
}

pub open spec fn array_index_text() -> Seq<char> {
    seq!['a', 'r', 'r', 'a', 'y', '_', 'i', 'n', 'd', 'e', 'x']
}

/// Whether `c` occurs in `s`.
pub fn contains_char(s: &[char], c: char) -> (r: bool)
    ensures
        r == s@.contains(c),
{
    let mut i: usize = 0;
    while i < s.len()
        invariant
            i <= s@.len(),
            forall|j: int| 0 <= j < i ==> s@[j] != c,
        decreases s@.len() - i,
    {
        if s[i] == c {
            assert(s@[i as int] == c);
            return true;
        }
        i = i + 1;
    }
    false
}

/// The `PascalCase` form of the `snake_case` name `s`.
pub(crate) fn pascal_case_of(s: &str) -> (r: String)
    ensures
        r@ == pascal_text(s@),
        !r@.contains('_'),
        is_ascii(s@) ==> r@ == ascii_pascal(s@),
{
    let cs = chars_of(s);
    let mut out = String::new();
    let mut cur: Vec<char> = Vec::new();
    let ghost mut done: Seq<Seq<char>> = Seq::empty();
    let mut i: usize = 0;
    while i < cs.len()
        invariant
            cs@ == s@,
            i <= cs@.len(),
            split_parts(cs@.subrange(0, i as int), '_') == done.push(cur@),
            out@ == join_capitalized(done),
            !out@.contains('_'),
            !cur@.contains('_'),
            is_ascii(cs@) ==> out@ == ascii_join_capitalized(done) && is_ascii(cur@),
        decreases cs@.len() - i,
    {
        assert(cs@.subrange(0, i + 1).drop_last() =~= cs@.subrange(0, i as int));
        let c = cs[i];
        if c == '_' {
            proof { assert(done.push(cur@).push(Seq::empty()).drop_last() =~= done.push(cur@)); }
            push_capitalized_checked(&mut out, &cur);
            proof {
                assert(done.push(cur@).drop_last() =~= done);
                done = done.push(cur@);
            }
            cur = Vec::new();
        } else {
            cur.push(c);
            proof {
                if is_ascii(cs@) {
                    assert forall|j: int| 0 <= j < cur@.len() implies (#[trigger] cur@[j] as int) < 128 by {
                        if j < cur@.len() - 1 {
                            assert(cur@[j] == cur@.drop_last()[j]);
                        }
                    }
                }
                assert(done.push(cur@.drop_last()).update(done.len() as int, cur@) =~= done.push(cur@));
                assert forall|j: int| 0 <= j < cur@.len() implies cur@[j] != '_' by {
                    if j < cur@.len() - 1 {
                        assert(cur@[j] == cur@.drop_last()[j]);
                    }
                }
            }
        }
        i = i + 1;
    }
    assert(cs@.subrange(0, cs@.len() as int) =~= cs@);
    proof { assert(done.push(cur@).drop_last() =~= done); }
    push_capitalized_checked(&mut out, &cur);
    out
}

/// Appends the capitalized form of `part`, which holds no underscore; so
/// does what is appended.
fn push_capitalized_checked(out: &mut String, part: &Vec<char>)
    requires
        !old(out)@.contains('_'),
        !part@.contains('_'),
    ensures
        final(out)@ == old(out)@ + capitalized(part@),
        !final(out)@.contains('_'),
        is_ascii(part@) ==> final(out)@ == old(out)@ + ascii_capitalized(part@),
{
    let ghost start = out@;
    if part.len() > 0 {
        let first = char_to_uppercase(part[0]);
        assert(part@[0] != '_');
        push_str(out, first.as_str());
        let mut rest: Vec<char> = Vec::new();
        let mut i: usize = 1;
        while i < part.len()
            invariant
                1 <= i <= part@.len(),
                rest@ == part@.subrange(1, i as int),
            decreases part@.len() - i,
        {
            rest.push(part[i]);
            i = i + 1;
        }
        assert(rest@ =~= part@.drop_first());
        assert(!rest@.contains('_')) by {
            if rest@.contains('_') {
                let j = choose|j: int| 0 <= j < rest@.len() && rest@[j] == '_';
                assert(part@[j + 1] == '_');
            }
        }
        let rest_text = string_of(rest.as_slice());
        assert(is_ascii(part@) ==> is_ascii(rest_text@)) by {
            if is_ascii(part@) {
                assert forall|j: int| 0 <= j < rest_text@.len() implies (#[trigger] rest_text@[j] as int) < 128 by {
                    assert(rest_text@[j] == part@[j + 1]);
                }
            }
        }
        let low = to_lowercase(rest_text.as_str());
        push_str(out, low.as_str());
        assert(out@ =~= start + capitalized(part@));
        assert(is_ascii(part@) ==> out@ =~= start + ascii_capitalized(part@)) by {
            if is_ascii(part@) {
                assert((part@[0] as int) < 128);
            }
        }
        assert(!out@.contains('_')) by {
            if out@.contains('_') {
                let j = choose|j: int| 0 <= j < out@.len() && out@[j] == '_';
                if j < start.len() {
                    assert(start[j] == '_');
                } else if j < start.len() + first@.len() {
                    assert(first@[j - start.len()] == '_');
                } else {
                    assert(low@[j - start.len() - first@.len()] == '_');
                }
            }
        }
    } else {
        assert(out@ =~= start + capitalized(part@));
    }
}

/// Appends `s` with an underscore before every uppercase character that
/// follows a lowercase one (see `snake_scan`).
fn snake_scan_of(s: &str) -> (r: String)
    ensures
        r@ == snake_scan(s@).0,
        is_ascii(s@) ==> r@ == scan_from((Seq::empty(), false), s@).0,
{
    let cs = chars_of(s);
    let mut out = String::new();
    let mut met_lower = false;
    let mut i: usize = 0;
    while i < cs.len()
        invariant
            cs@ == s@,
            i <= cs@.len(),
            snake_scan(cs@.subrange(0, i as int)) == (out@, met_lower),
            is_ascii(cs@) ==> scan_from((Seq::empty(), false), cs@.subrange(0, i as int)) == (out@, met_lower),
        decreases cs@.len() - i,
    {
        assert(cs@.subrange(0, i + 1).drop_last() =~= cs@.subrange(0, i as int));
        let c = cs[i];
        assert(is_ascii(cs@) ==> (c as int) < 128);
        if char_is_uppercase(c) && met_lower {
            push_char(&mut out, '_');
            met_lower = false;
        } else if char_is_lowercase(c) {
            met_lower = true;
        }
        push_char(&mut out, c);
        i = i + 1;
    }
    assert(cs@.subrange(0, cs@.len() as int) =~= cs@);
    out
}

fn first_is_ascii_upper(s: &str) -> (r: bool)
    ensures
        r == (s@.len() > 0 && is_ascii_upper(s@[0])),
{
    if s.unicode_len() > 0 {
        char_is_ascii_upper(s.get_char(0))
    } else {
        false
    }
}

impl NamePascalCase {
    /// The `snake_case` form: an underscore before each uppercase character
    /// that follows a lowercase one, then everything in lowercase.
    pub fn to_snake_case(&self) -> (r: NameSnakeCase)
        ensures
            r@ == snake_text(self@),
            is_ascii(self@) ==> r@ == ascii_snake(self@),
    {
        let scanned = snake_scan_of(self.0.as_str());
        proof {
            if is_ascii(self@) {
                lemma_scan_ascii((Seq::empty(), false), self@);
            }
        }
        let low = to_lowercase(scanned.as_str());
        proof {
            if is_ascii(self@) {
                lemma_lower_ascii(scanned@);
            }
        }
        // A lowercased name does not start with an ASCII uppercase letter:
        // read as a `snake_case` name, it is lowercased once more.
        NameSnakeCase(to_lowercase(low.as_str()))
    }

    /// The `PascalCase` name made from `value` (see `pascal_name_of`).
    pub fn from_string(value: String) -> (r: NamePascalCase)
        ensures
            r@ == pascal_name_of(value@),
    {
        let cs = chars_of(value.as_str());
        if contains_char(cs.as_slice(), '_') {
            let low = to_lowercase(value.as_str());
            NamePascalCase(pascal_case_of(low.as_str()))
        } else {
            NamePascalCase(value)
        }
    }

    /// The `PascalCase` name made from an identifier.
    pub fn from_identifier(value: Identifier) -> (r: NamePascalCase)
        ensures
            r@ == pascal_text(snake_name_of(identifier_text(value))),
    {
        NameSnakeCase::from_identifier(value).to_pascal_case()
    }

    /// The name as text.
    pub fn as_str(&self) -> (r: &str)
        ensures
            r@ == self@,
    {
        self.0.as_str()
    }
}

impl NameSnakeCase {
    /// The `snake_case` name made from `value` (see `snake_name_of`).
    pub fn from_string(value: String) -> (r: NameSnakeCase)
        ensures
            r@ == snake_name_of(value@),
            value@.contains('_') && is_ascii(value@) ==> r@ == value@.map_values(|c: char| ascii_lower(c)),
    {
        let cs = chars_of(value.as_str());
        if !contains_char(cs.as_slice(), '_') && first_is_ascii_upper(value.as_str()) {
            let scanned = snake_scan_of(value.as_str());
            let low = to_lowercase(scanned.as_str());
            NameSnakeCase(to_lowercase(low.as_str()))
        } else {
            NameSnakeCase(to_lowercase(value.as_str()))
        }
    }

    /// The `snake_case` name made from the text `value`.
    pub fn from_str(value: &str) -> (r: NameSnakeCase)
        ensures
            r@ == snake_name_of(value@),
    {
        NameSnakeCase::from_string(crate::text::string_from(value))
    }

    /// The `snake_case` name made from an identifier: the field's name, or
    /// `tuple_index` / `array_index` and the index.
    pub fn from_identifier(value: Identifier) -> (r: NameSnakeCase)
        ensures
            r@ == snake_name_of(identifier_text(value)),
    {
        let mut text = String::new();
        match &value {
            Identifier::Field(name) => push_str(&mut text, name.as_str()),
            Identifier::TupleIndex(i) => {
                push_chars(&mut text, &['t', 'u', 'p', 'l', 'e', '_', 'i', 'n', 'd', 'e', 'x']);
                push_decimal(&mut text, *i);
            },
            Identifier::ArrayIndex(i) => {
                push_chars(&mut text, &['a', 'r', 'r', 'a', 'y', '_', 'i', 'n', 'd', 'e', 'x']);
                push_decimal(&mut text, *i);
            },
        }
        assert(text@ =~= identifier_text(value));
        NameSnakeCase::from_string(text)
    }

    /// The name of the wrapper of the tuple element `index`.
    pub fn tuple_index(index: usize) -> (r: Self)
        ensures
            r@ == snake_name_of(tuple_index_text() + decimal(index as nat)),
    {
        NameSnakeCase::from_identifier(Identifier::TupleIndex(index))
    }

    /// The name in lowercase.
    pub fn to_lowercase(&self) -> (r: Self)
        ensures
            r@ == lowercase(self@),
    {
        NameSnakeCase(to_lowercase(self.0.as_str()))
    }

    /// The name in uppercase.
    pub fn to_uppercase(&self) -> (r: Self)
        ensures
            r@ == uppercase(self@),
    {
        NameSnakeCase(to_uppercase(self.0.as_str()))
    }

    /// The `PascalCase` form: each part between underscores capitalized.
    pub fn to_pascal_case(&self) -> (r: NamePascalCase)
        ensures
            r@ == pascal_text(self@),
            is_ascii(self@) ==> r@ == ascii_pascal(self@),
    {
        NamePascalCase(pascal_case_of(self.0.as_str()))
    }

    /// The two names joined by an underscore.
    pub fn concat(self, other: NameSnakeCase) -> (r: Self)
        ensures
            r@ == lowercase(self@ + seq!['_'] + other@),
            is_ascii(self@ + seq!['_'] + other@) ==> r@ == (self@ + seq!['_'] + other@).map_values(|c: char| ascii_lower(c)),
    {
        let mut text = self.0;
        push_char(&mut text, '_');
        push_str(&mut text, other.0.as_str());
        let ghost t = text@;
        assert(t =~= self@ + seq!['_'] + other@);
        assert(t.contains('_')) by {
            assert(t[self@.len() as int] == '_');
        }
        NameSnakeCase::from_string(text)
    }

    /// The part after the last underscore (all of it where there is none).
    pub fn last_part(&self) -> (r: String)
        ensures
            r@ == split_parts(self@, '_').last(),
    {
        let cs = chars_of(self.0.as_str());
        let mut cur: Vec<char> = Vec::new();
        let mut i: usize = 0;
        while i < cs.len()
            invariant
                cs@ == self@,
                i <= cs@.len(),
                split_parts(cs@.subrange(0, i as int), '_').last() == cur@,
            decreases cs@.len() - i,
        {
            assert(cs@.subrange(0, i + 1).drop_last() =~= cs@.subrange(0, i as int));
            proof { lemma_split_parts_len(cs@.subrange(0, i as int), '_'); }
            if cs[i] == '_' {
                cur = Vec::new();
            } else {
                cur.push(cs[i]);
            }
            i = i + 1;
        }
        assert(cs@.subrange(0, cs@.len() as int) =~= cs@);
        string_of(cur.as_slice())
    }

    /// The name as text.
    pub fn as_str(&self) -> (r: &str)
        ensures
            r@ == self@,
    {
        self.0.as_str()
    }
}

} // verus!
