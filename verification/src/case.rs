use vstd::prelude::*;

use crate::text::push_str;

verus! {

/// What `str::to_lowercase` returns for a string with the characters `s`:
/// its lowercase equivalent under Unicode's case mapping.
pub uninterp spec fn lowercase(s: Seq<char>) -> Seq<char>;

/// What `str::to_uppercase` returns for a string with the characters `s`:
/// its uppercase equivalent under Unicode's case mapping.
pub uninterp spec fn uppercase(s: Seq<char>) -> Seq<char>;

/// The characters of what `char::to_uppercase` yields for `c` (one or
/// more characters).
pub uninterp spec fn char_uppercase(c: char) -> Seq<char>;

/// Whether `c` has Unicode's `Uppercase` property (`char::is_uppercase`).
pub uninterp spec fn is_uppercase(c: char) -> bool;

/// Whether `c` has Unicode's `Lowercase` property (`char::is_lowercase`).
pub uninterp spec fn is_lowercase(c: char) -> bool;

/// `c` is one of the ASCII letters `A` to `Z`.
pub open spec fn is_ascii_upper(c: char) -> bool {
    'A' <= c <= 'Z'
}

/// `c` is one of the ASCII letters `a` to `z`.
pub open spec fn is_ascii_lower(c: char) -> bool {
    'a' <= c <= 'z'
}

/// Every character of `s` is ASCII.
pub open spec fn is_ascii(s: Seq<char>) -> bool {
    forall|i: int| 0 <= i < s.len() ==> (#[trigger] s[i] as int) < 128
}

/// `c` with an ASCII uppercase letter turned into its lowercase letter.
pub open spec fn ascii_lower(c: char) -> char {
    if is_ascii_upper(c) { ((c as int) + 32) as char } else { c }
}

/// `c` with an ASCII lowercase letter turned into its uppercase letter.
pub open spec fn ascii_upper(c: char) -> char {
    if is_ascii_lower(c) { ((c as int) - 32) as char } else { c }
}

/// `str::to_lowercase`. Its result is named; an ASCII string maps
/// character by character to its ASCII lowercase form; besides, two facts of the
/// Unicode case mapping that it applies are stated: the lowercase
/// equivalent holds no ASCII uppercase letter (each of `A`..`Z` maps to its
/// lowercase letter, and no lowercase mapping yields one), and it holds a
/// `_` only where the string does (`_` has no case mapping and no mapping
/// yields it).
#[verifier::external_body]
pub(crate) fn to_lowercase(s: &str) -> (r: String)
    ensures
        r@ == lowercase(s@),
        is_ascii(s@) ==> r@ == s@.map_values(|c: char| ascii_lower(c)),
        forall|i: int| 0 <= i < r@.len() ==> !is_ascii_upper(#[trigger] r@[i]),
        !s@.contains('_') ==> !r@.contains('_'),
{
    s.to_lowercase()
}

/// `str::to_uppercase`; its result is named, and an ASCII string maps
/// character by character to its ASCII uppercase form.
#[verifier::external_body]
pub(crate) fn to_uppercase(s: &str) -> (r: String)
    ensures
        r@ == uppercase(s@),
        is_ascii(s@) ==> r@ == s@.map_values(|c: char| ascii_upper(c)),
{
    s.to_uppercase()
}

/// `char::to_uppercase`, collected into a string; its result is named.
/// Besides, no character other than `_` maps to a `_`, and an ASCII
/// character maps to its ASCII uppercase form alone.
#[verifier::external_body]
pub(crate) fn char_to_uppercase(c: char) -> (r: String)
    ensures
        r@ == char_uppercase(c),
        (c as int) < 128 ==> r@ == seq![ascii_upper(c)],
        c != '_' ==> !r@.contains('_'),
{
    c.to_uppercase().collect()
}

/// `char::is_uppercase`; its result is named, and for an ASCII character
/// it holds exactly of `A` to `Z`.
#[verifier::external_body]
pub(crate) fn char_is_uppercase(c: char) -> (r: bool)
    ensures
        r == is_uppercase(c),
        (c as int) < 128 ==> r == is_ascii_upper(c),
{
    c.is_uppercase()
}

/// `char::is_lowercase`; its result is named, and for an ASCII character
/// it holds exactly of `a` to `z`.
#[verifier::external_body]
pub(crate) fn char_is_lowercase(c: char) -> (r: bool)
    ensures
        r == is_lowercase(c),
        (c as int) < 128 ==> r == is_ascii_lower(c),
{
    c.is_lowercase()
}

/// Whether `c` is an ASCII uppercase letter.
pub fn char_is_ascii_upper(c: char) -> (r: bool)
    ensures
        r == is_ascii_upper(c),
{
    'A' <= c && c <= 'Z'
}

/// Appends the lowercase equivalent of `t`.
pub fn push_lowercase(s: &mut String, t: &str)
    ensures
        final(s)@ == old(s)@ + lowercase(t@),
{
    let l = to_lowercase(t);
    push_str(s, l.as_str());
}

} // verus!
