use vstd::prelude::*;

use crate::case::{char_is_uppercase, is_uppercase, lowercase, to_lowercase, to_uppercase, uppercase};
use crate::identifier::Identifier;
use crate::rust::shared::name::{pascal_case_of, pascal_text};
use crate::text::{chars_of, decimal, push_char, push_chars, push_decimal, push_str};

verus! {

// The first naming scheme of the generator: names are lowercased on the
// way in and the type names are kept as given.

/// A name in `PascalCase`.
pub struct NamePascalCase(pub String);

/// A name in `snake_case`.
pub struct NameSnakeCase(pub String);

impl View for NamePascalCase {
    type V = Seq<char>;

    open spec fn view(&self) -> Seq<char> {
        self.0@
    }
}

impl View for NameSnakeCase {
    type V = Seq<char>;

    open spec fn view(&self) -> Seq<char> {
        self.0@
    }
}

/// `s` with an underscore before every uppercase character but the first.
pub open spec fn underscored(s: Seq<char>) -> Seq<char>
    decreases s.len(),
{
    if s.len() == 0 {
        Seq::empty()
    } else if is_uppercase(s.last()) && s.len() > 1 {
        underscored(s.drop_last()).push('_').push(s.last())
    } else {
        underscored(s.drop_last()).push(s.last())
    }
}

/// The text of a name made from an identifier: the field's name, or `elem`
/// and the index.
pub open spec fn element_text(id: Identifier) -> Seq<char> {
    match id {
        Identifier::Field(name) => name@,
        Identifier::TupleIndex(i) => seq!['e', 'l', 'e', 'm'] + decimal(i as nat),
        Identifier::ArrayIndex(i) => seq!['e', 'l', 'e', 'm'] + decimal(i as nat),
    }
}

impl NamePascalCase {
    /// The `snake_case` form: an underscore before every uppercase
    /// character but the first, then everything in lowercase.
    pub fn to_snake_case(&self) -> (r: NameSnakeCase)
        ensures
            r@ == lowercase(lowercase(underscored(self@))),
    {
        let cs = chars_of(self.0.as_str());
        let mut out = String::new();
        let mut i: usize = 0;
        while i < cs.len()
            invariant
                cs@ == self@,
                i <= cs@.len(),
                out@ == underscored(cs@.subrange(0, i as int)),
            decreases cs@.len() - i,
        {
            assert(cs@.subrange(0, i + 1).drop_last() =~= cs@.subrange(0, i as int));
            let ch = cs[i];
            if char_is_uppercase(ch) {
                if i != 0 {
                    push_char(&mut out, '_');
                }
            }
            push_char(&mut out, ch);
            i = i + 1;
        }
        assert(cs@.subrange(0, cs@.len() as int) =~= cs@);
        let low = to_lowercase(out.as_str());
        NameSnakeCase::from_string(low)
    }

    /// The name `value`, as given.
    pub fn from_string(value: String) -> (r: NamePascalCase)
        ensures
            r@ == value@,
    {
        NamePascalCase(value)
    }

    /// The name as text.
    pub fn as_str(&self) -> (r: &str)
        ensures
            r@ == self@,
    {
        self.0.as_str()
    }
}

impl NameSnakeCase {
    /// The name `value` in lowercase.
    pub fn from_string(value: String) -> (r: NameSnakeCase)
        ensures
            r@ == lowercase(value@),
    {
        NameSnakeCase(to_lowercase(value.as_str()))
    }

    /// The text `value` in lowercase.
    pub fn from_str(value: &str) -> (r: NameSnakeCase)
        ensures
            r@ == lowercase(value@),
    {
        NameSnakeCase(to_lowercase(value))
    }

    /// The name made from an identifier: the field's name, or `elem` and
    /// the index, in lowercase.
    pub fn from_identifier(value: Identifier) -> (r: NameSnakeCase)
        ensures
            r@ == lowercase(element_text(value)),
    {
        let mut text = String::new();
        match &value {
            Identifier::Field(name) => push_str(&mut text, name.as_str()),
            Identifier::TupleIndex(i) => {
                push_chars(&mut text, &['e', 'l', 'e', 'm']);
                push_decimal(&mut text, *i);
            },
            Identifier::ArrayIndex(i) => {
                push_chars(&mut text, &['e', 'l', 'e', 'm']);
                push_decimal(&mut text, *i);
            },
        }
        assert(text@ =~= element_text(value));
        NameSnakeCase::from_string(text)
    }

    /// The name in lowercase.
    pub fn to_lowercase(&self) -> (r: Self)
        ensures
            r@ == lowercase(self@),
    {
        NameSnakeCase(to_lowercase(self.0.as_str()))
    }

    /// The name in uppercase.
    pub fn to_uppercase(&self) -> (r: Self)
        ensures
            r@ == uppercase(self@),
    {
        NameSnakeCase(to_uppercase(self.0.as_str()))
    }

    /// The `PascalCase` form: each part between underscores capitalized.
    pub fn to_pascal_case(&self) -> (r: NamePascalCase)
        ensures
            r@ == pascal_text(self@),
    {
        NamePascalCase(pascal_case_of(self.0.as_str()))
    }

    /// The two names joined by an underscore, in lowercase.
    pub fn concat(self, other: NameSnakeCase) -> (r: Self)
        ensures
            r@ == lowercase(self@ + seq!['_'] + other@),
    {
        let mut text = self.0;
        push_char(&mut text, '_');
        push_str(&mut text, other.0.as_str());
        assert(text@ =~= self@ + seq!['_'] + other@);
        NameSnakeCase::from_string(text)
    }

    /// The name as text.
    pub fn as_str(&self) -> (r: &str)
        ensures
            r@ == self@,
    {
        self.0.as_str()
    }
}

} // verus!
