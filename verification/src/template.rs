use vstd::prelude::*;

use crate::identifier::{identifier_display, Identifier};
use crate::text::{chars_of, decimal, push_char, push_decimal, push_str};

verus! {

/// The value of a piece: the references' paths as sequences.
pub enum PieceView {
    Literal(String),
    BracketOpen,
    BracketClose,
    Argument { name: ArgumentNameView, specifier: Option<Specifier> },
}

/// The value of an argument name.
pub enum ArgumentNameView {
    Const(NameRefView),
    ArgumentKey(ArgumentKey),
}

/// The value of a reference.
pub enum NameRefView {
    Ast { origin: AstRefOrigin, path: Seq<Identifier> },
    Other(String),
}

impl View for NameRef {
    type V = NameRefView;

    open spec fn view(&self) -> NameRefView {
        match self {
            NameRef::Ast { origin, path } => NameRefView::Ast { origin: *origin, path: path@ },
            NameRef::Other(s) => NameRefView::Other(*s),
        }
    }
}

impl View for ArgumentName {
    type V = ArgumentNameView;

    open spec fn view(&self) -> ArgumentNameView {
        match self {
            ArgumentName::Const(n) => ArgumentNameView::Const(n@),
            ArgumentName::ArgumentKey(k) => ArgumentNameView::ArgumentKey(*k),
        }
    }
}

impl View for Piece {
    type V = PieceView;

    open spec fn view(&self) -> PieceView {
        match self {
            Piece::Literal(s) => PieceView::Literal(*s),
            Piece::BracketOpen => PieceView::BracketOpen,
            Piece::BracketClose => PieceView::BracketClose,
            Piece::Argument { name, specifier } => PieceView::Argument { name: name@, specifier: *specifier },
        }
    }
}

impl View for Template {
    type V = Seq<PieceView>;

    open spec fn view(&self) -> Seq<PieceView> {
        self.0@.map_values(|p: Piece| p@)
    }
}

impl Clone for AstRefOrigin {
    fn clone(&self) -> (r: Self)
        ensures
            r == *self,
    {
        match self {
            AstRefOrigin::RootNode => AstRefOrigin::RootNode,
            AstRefOrigin::SelfNode => AstRefOrigin::SelfNode,
            AstRefOrigin::ContextNode => AstRefOrigin::ContextNode,
            AstRefOrigin::I18nNode => AstRefOrigin::I18nNode,
        }
    }
}

impl Clone for ArgumentKey {
    fn clone(&self) -> (r: Self)
        ensures
            r == *self,
    {
        match self {
            ArgumentKey::Index(i) => ArgumentKey::Index(*i),
            ArgumentKey::Name(n) => ArgumentKey::Name(n.clone()),
        }
    }
}

impl Clone for Width {
    fn clone(&self) -> (r: Self)
        ensures
            r == *self,
    {
        match self {
            Width::Dynamic(k) => Width::Dynamic(k.clone()),
            Width::Fixed(n) => Width::Fixed(*n),
        }
    }
}

impl Clone for Precision {
    fn clone(&self) -> (r: Self)
        ensures
            r == *self,
    {
        match self {
            Precision::Auto => Precision::Auto,
            Precision::Dynamic(k) => Precision::Dynamic(k.clone()),
            Precision::Fixed(n) => Precision::Fixed(*n),
        }
    }
}

impl Clone for Specifier {
    fn clone(&self) -> (r: Self)
        ensures
            r == *self,
    {
        Specifier {
            ty: self.ty,
            alternate_form: self.alternate_form,
            fill_character: self.fill_character,
            alignment: self.alignment,
            sign: self.sign,
            pad_zero: self.pad_zero,
            width: self.width.clone(),
            precision: self.precision.clone(),
        }
    }
}

impl Clone for NameRef {
    fn clone(&self) -> (r: Self)
        ensures
            r@ == self@,
    {
        match self {
            NameRef::Ast { origin, path } => NameRef::Ast {
                origin: origin.clone(),
                path: crate::identifier::clone_identifiers(path),
            },
            NameRef::Other(s) => NameRef::Other(s.clone()),
        }
    }
}

impl Clone for ArgumentName {
    fn clone(&self) -> (r: Self)
        ensures
            r@ == self@,
    {
        match self {
            ArgumentName::Const(n) => ArgumentName::Const(n.clone()),
            ArgumentName::ArgumentKey(k) => ArgumentName::ArgumentKey(k.clone()),
        }
    }
}

impl Clone for Piece {
    fn clone(&self) -> (r: Self)
        ensures
            r@ == self@,
    {
        match self {
            Piece::Literal(s) => Piece::Literal(s.clone()),
            Piece::BracketOpen => Piece::BracketOpen,
            Piece::BracketClose => Piece::BracketClose,
            Piece::Argument { name, specifier } => Piece::Argument {
                name: name.clone(),
                specifier: match specifier {
                    Some(s) => Some(s.clone()),
                    None => None,
                },
            },
        }
    }
}

impl Clone for Template {
    fn clone(&self) -> (r: Self)
        ensures
            r@ == self@,
    {
        let mut v: Vec<Piece> = Vec::new();
        let mut i: usize = 0;
        while i < self.0.len()
            invariant
                i <= self.0@.len(),
                v@.len() == i,
                forall|k: int| 0 <= k < i ==> (#[trigger] v@[k])@ == self.0@[k]@,
            decreases self.0@.len() - i,
        {
            v.push(self.0[i].clone());
            i = i + 1;
        }
        let r = Template(v);
        assert(r@ =~= self@);
        r
    }
}

/// A parsed format template: a sequence of pieces.
#[derive(Debug)]
pub struct Template(pub Vec<Piece>);

/// One piece of a template.
#[derive(Debug)]
pub enum Piece {
    Literal(String),
    /// An escaped `{`.
    BracketOpen,
    /// An escaped `}`.
    BracketClose,
    Argument { name: ArgumentName, specifier: Option<Specifier> },
}

/// The name of a template argument: a reference to another node of the
/// localization tree, or a key of an argument given by the caller.
#[derive(Debug)]
pub enum ArgumentName {
    Const(NameRef),
    ArgumentKey(ArgumentKey),
}

/// A reference to a value that is known when the code is generated.
#[derive(Debug)]
pub enum NameRef {
    Ast { origin: AstRefOrigin, path: Vec<Identifier> },
    Other(String),
}

/// Where the path of a reference starts.
#[derive(Debug)]
pub enum AstRefOrigin {
    /// `root.`: from the root of the component.
    RootNode,
    /// `self.`: from the struct that holds the template.
    SelfNode,
    /// `context.`: from the context, the component's name first.
    ContextNode,
    /// `i18n.`: from the application, a context's name first.
    I18nNode,
}

/// The key of an argument given by the caller: a position or a name.
#[derive(Debug)]
pub enum ArgumentKey {
    Index(usize),
    Name(String),
}

/// How an argument is formatted.
#[derive(Debug)]
pub struct Specifier {
    pub ty: Type,
    pub alternate_form: bool,
    pub fill_character: char,
    pub alignment: Alignment,
    pub sign: bool,
    pub pad_zero: bool,
    pub width: Width,
    pub precision: Precision,
}

/// Type variants of the specifier.
#[derive(Debug, Clone, Copy, PartialEq, Eq, Structural)]
pub enum Type {
    Binary,
    Octal,
    LowerHex,
    UpperHex,
    Pointer,
    LowerExp,
    UpperExp,
    Debug,
    Display,
}

/// Alignment variants of the specifier.
#[derive(Debug, Clone, Copy, PartialEq, Eq, Structural)]
pub enum Alignment {
    Left,
    Center,
    Right,
    Auto,
}

/// Width variants of the specifier.
#[derive(Debug)]
pub enum Width {
    Dynamic(ArgumentKey),
    Fixed(u16),
}

/// Precision variants of the specifier.
#[derive(Debug)]
pub enum Precision {
    Auto,
    Dynamic(ArgumentKey),
    Fixed(u16),
}

impl Default for Specifier {
    fn default() -> (r: Self)
        ensures
            r.ty == Type::Display,
            !r.alternate_form,
            r.fill_character == ' ',
            r.alignment == Alignment::Auto,
            !r.sign,
            !r.pad_zero,
            r.width == Width::Fixed(0),
            r.precision == Precision::Auto,
    {
        Specifier {
            ty: Type::Display,
            alternate_form: false,
            fill_character: ' ',
            alignment: Alignment::Auto,
            sign: false,
            pad_zero: false,
            width: Width::Fixed(0),
            precision: Precision::Auto,
        }
    }
}

/// The arguments among `pieces`, in order, each with its specifier.
pub open spec fn arguments_of(pieces: Seq<Piece>) -> Seq<(ArgumentName, Option<Specifier>)>
    decreases pieces.len(),
{
    if pieces.len() == 0 {
        Seq::empty()
    } else {
        let rest = arguments_of(pieces.drop_last());
        match pieces.last() {
            Piece::Argument { name, specifier } => rest.push((name, specifier)),
            _ => rest,
        }
    }
}

impl Template {
    /// The arguments of the template, in order, each with its specifier.
    pub fn arguments(&self) -> (r: Vec<(&ArgumentName, &Option<Specifier>)>)
        ensures
            r@.len() == arguments_of(self.0@).len(),
            forall|i: int| 0 <= i < r@.len() ==> *(#[trigger] r@[i]).0 == arguments_of(self.0@)[i].0 && *r@[i].1 == arguments_of(self.0@)[i].1,
    {
        let mut r: Vec<(&ArgumentName, &Option<Specifier>)> = Vec::new();
        let mut i: usize = 0;
        while i < self.0.len()
            invariant
                i <= self.0@.len(),
                r@.len() == arguments_of(self.0@.subrange(0, i as int)).len(),
                forall|k: int| 0 <= k < r@.len() ==> *(#[trigger] r@[k]).0 == arguments_of(self.0@.subrange(0, i as int))[k].0
                    && *r@[k].1 == arguments_of(self.0@.subrange(0, i as int))[k].1,
            decreases self.0@.len() - i,
        {
            assert(self.0@.subrange(0, i + 1).drop_last() =~= self.0@.subrange(0, i as int));
            match &self.0[i] {
                Piece::Argument { name, specifier } => {
                    r.push((name, specifier));
                },
                _ => {},
            }
            i = i + 1;
        }
        assert(self.0@.subrange(0, self.0@.len() as int) =~= self.0@);
        r
    }
}

/// The character of a specifier type (none for `Display`).
pub open spec fn type_text(t: Type) -> Seq<char> {
    match t {
        Type::Binary => seq!['b'],
        Type::Octal => seq!['o'],
        Type::LowerHex => seq!['x'],
        Type::UpperHex => seq!['X'],
        Type::Pointer => seq!['p'],
        Type::LowerExp => seq!['e'],
        Type::UpperExp => seq!['E'],
        Type::Debug => seq!['?'],
        Type::Display => Seq::empty(),
    }
}

/// The character of an alignment (none for `Auto`).
pub open spec fn alignment_text(a: Alignment) -> Seq<char> {
    match a {
        Alignment::Left => seq!['<'],
        Alignment::Center => seq!['^'],
        Alignment::Right => seq!['>'],
        Alignment::Auto => Seq::empty(),
    }
}

/// The alignment that a format string's syntax reads from the character
/// that follows the fill character: `<` left, `^` centered, `>` right;
/// none from any other.
pub open spec fn alignment_read(c: char) -> Option<Alignment> {
    if c == '<' {
        Some(Alignment::Left)
    } else if c == '^' {
        Some(Alignment::Center)
    } else if c == '>' {
        Some(Alignment::Right)
    } else {
        None
    }
}

/// A written specifier starts with its fill character, and the character
/// after it reads back as the specifier's alignment (where it has one):
/// each alignment is written as the character that means it.
pub proof fn law_alignment_reads_back(s: Specifier)
    ensures
        specifier_text(s)[0] == s.fill_character,
        s.alignment != Alignment::Auto ==> specifier_text(s).len() >= 2 && alignment_read(specifier_text(s)[1]) == Some(s.alignment),
{
    let t = specifier_text(s);
    assert(t == seq![s.fill_character] + alignment_text(s.alignment) + flags_text(s)
        + width_text(s.width) + precision_text(s.precision) + type_text(s.ty));
    if s.alignment != Alignment::Auto {
        assert(t[1] == alignment_text(s.alignment)[0]);
    }
}

/// The formatting trait that a format string's syntax reads from the
/// character that ends a specifier: `?` debug, `x`/`X` hexadecimal, `o`
/// octal, `b` binary, `e`/`E` exponent, `p` pointer; none from any other.
pub open spec fn type_read(c: char) -> Option<Type> {
    if c == '?' {
        Some(Type::Debug)
    } else if c == 'x' {
        Some(Type::LowerHex)
    } else if c == 'X' {
        Some(Type::UpperHex)
    } else if c == 'o' {
        Some(Type::Octal)
    } else if c == 'b' {
        Some(Type::Binary)
    } else if c == 'e' {
        Some(Type::LowerExp)
    } else if c == 'E' {
        Some(Type::UpperExp)
    } else if c == 'p' {
        Some(Type::Pointer)
    } else {
        None
    }
}

/// A written specifier of a type other than `Display` ends with the
/// character that reads back as that type.
pub proof fn law_type_reads_back(s: Specifier)
    ensures
        s.ty != Type::Display ==> type_read(specifier_text(s).last()) == Some(s.ty),
{
    let t = specifier_text(s);
    let front = seq![s.fill_character] + alignment_text(s.alignment) + flags_text(s)
        + width_text(s.width) + precision_text(s.precision);
    assert(t == front + type_text(s.ty));
    if s.ty != Type::Display {
        assert(type_text(s.ty).len() == 1);
        assert(t.last() == type_text(s.ty)[0]);
    }
}

/// An argument key as written in a template.
pub open spec fn key_text(k: ArgumentKey) -> Seq<char> {
    match k {
        ArgumentKey::Index(i) => decimal(i as nat),
        ArgumentKey::Name(n) => n@,
    }
}

/// A width as written in a specifier.
pub open spec fn width_text(w: Width) -> Seq<char> {
    match w {
        Width::Dynamic(k) => key_text(k).push('$'),
        Width::Fixed(n) => decimal(n as nat),
    }
}

/// A precision as written in a specifier.
pub open spec fn precision_text(p: Precision) -> Seq<char> {
    match p {
        Precision::Auto => Seq::empty(),
        Precision::Dynamic(k) => seq!['.'] + key_text(k).push('$'),
        Precision::Fixed(n) => seq!['.'] + decimal(n as nat),
    }
}

/// A specifier as written in a template, after the `:`: the fill
/// character, the alignment, the flags, the width, the precision and the
/// type.
pub open spec fn specifier_text(s: Specifier) -> Seq<char> {
    seq![s.fill_character] + alignment_text(s.alignment) + flags_text(s)
        + width_text(s.width) + precision_text(s.precision) + type_text(s.ty)
}

/// The flags of a specifier as written: `+` for the sign, `#` for the
/// alternate form, `0` for zero padding.
pub open spec fn flags_text(s: Specifier) -> Seq<char> {
    (if s.sign { seq!['+'] } else { Seq::empty() })
        + (if s.alternate_form { seq!['#'] } else { Seq::empty() })
        + (if s.pad_zero { seq!['0'] } else { Seq::empty() })
}

/// The word that starts a reference of the origin `o` in a template.
pub open spec fn origin_word(o: AstRefOrigin) -> Seq<char> {
    match o {
        AstRefOrigin::RootNode => "root"@,
        AstRefOrigin::SelfNode => "self"@,
        AstRefOrigin::ContextNode => "context"@,
        AstRefOrigin::I18nNode => "i18n"@,
    }
}

/// A reference as written in a template: the word of its origin, then each
/// identifier of its path after a dot.
pub open spec fn dotted_reference(o: AstRefOrigin, path: Seq<Identifier>) -> Seq<char>
    decreases path.len(),
{
    if path.len() == 0 {
        origin_word(o)
    } else {
        dotted_reference(o, path.drop_last()) + "."@ + identifier_display(path.last()@)
    }
}

/// `s` with every dot replaced by an underscore.
pub open spec fn underscored(s: Seq<char>) -> Seq<char> {
    s.map_values(|c: char| if c == '.' { '_' } else { c })
}

/// The name under which a reference is handed to the formatter: the
/// reference as written, with underscores for its dots.
pub open spec fn reference_name(o: AstRefOrigin, path: Seq<Identifier>) -> Seq<char> {
    underscored(dotted_reference(o, path))
}

/// The name under which the reference from `origin` along `path` is handed
/// to the formatter (see `reference_name`).
pub fn reference_name_text(origin: &AstRefOrigin, path: &Vec<Identifier>) -> (r: String)
    ensures
        r@ == reference_name(*origin, path@),
{
    let mut dotted = String::new();
    match origin {
        AstRefOrigin::RootNode => push_str(&mut dotted, "root"),
        AstRefOrigin::SelfNode => push_str(&mut dotted, "self"),
        AstRefOrigin::ContextNode => push_str(&mut dotted, "context"),
        AstRefOrigin::I18nNode => push_str(&mut dotted, "i18n"),
    }
    assert(dotted@ == dotted_reference(*origin, path@.subrange(0, 0)));
    let mut i: usize = 0;
    while i < path.len()
        invariant
            i <= path@.len(),
            dotted@ == dotted_reference(*origin, path@.subrange(0, i as int)),
        decreases path@.len() - i,
    {
        assert(path@.subrange(0, i + 1).drop_last() =~= path@.subrange(0, i as int));
        push_str(&mut dotted, ".");
        let t = path[i].to_text();
        push_str(&mut dotted, t.as_str());
        i = i + 1;
    }
    assert(path@.subrange(0, path@.len() as int) =~= path@);
    let cs = chars_of(dotted.as_str());
    let mut out = String::new();
    let mut k: usize = 0;
    while k < cs.len()
        invariant
            k <= cs@.len(),
            cs@ == dotted@,
            out@ == underscored(cs@.subrange(0, k as int)),
        decreases cs@.len() - k,
    {
        let c = cs[k];
        if c == '.' {
            push_char(&mut out, '_');
        } else {
            push_char(&mut out, c);
        }
        assert(underscored(cs@.subrange(0, k + 1)) =~= underscored(cs@.subrange(0, k as int)).push(if c == '.' { '_' } else { c }));
        k = k + 1;
    }
    assert(cs@.subrange(0, cs@.len() as int) =~= cs@);
    out
}

/// The argument name can be written out: it is the key of an argument given
/// by the caller, or a reference into the localization trees (which is
/// written under its name, see `reference_name`).
pub open spec fn writable_name(n: ArgumentName) -> bool {
    n is ArgumentKey || n matches ArgumentName::Const(NameRef::Ast { .. })
}

/// A piece as written in a template.
pub open spec fn piece_text(p: Piece) -> Seq<char> {
    match p {
        Piece::Literal(s) => s@,
        Piece::BracketOpen => seq!['{', '{'],
        Piece::BracketClose => seq!['}', '}'],
        Piece::Argument { name, specifier } => {
            let key = match name {
                ArgumentName::ArgumentKey(k) => key_text(k),
                ArgumentName::Const(NameRef::Ast { origin, path }) => reference_name(origin, path@),
                ArgumentName::Const(NameRef::Other(_)) => Seq::empty(),
            };
            let spec_part = match specifier {
                Some(s) => seq![':'] + specifier_text(s),
                None => Seq::empty(),
            };
            seq!['{'] + key + spec_part + seq!['}']
        },
    }
}

/// A template as written out: its pieces one after the other.
pub open spec fn template_text(pieces: Seq<Piece>) -> Seq<char>
    decreases pieces.len(),
{
    if pieces.len() == 0 {
        Seq::empty()
    } else {
        template_text(pieces.drop_last()) + piece_text(pieces.last())
    }
}

/// Every argument name of the template can be written out.
pub open spec fn writable_template(pieces: Seq<Piece>) -> bool {
    forall|i: int| 0 <= i < pieces.len() ==> match #[trigger] pieces[i] {
        Piece::Argument { name, .. } => writable_name(name),
        _ => true,
    }
}

impl Type {
    /// Appends the character of the type.
    pub fn write_to(&self, out: &mut String)
        ensures
            final(out)@ == old(out)@ + type_text(*self),
    {
        match self {
            Type::Binary => push_char(out, 'b'),
            Type::Octal => push_char(out, 'o'),
            Type::LowerHex => push_char(out, 'x'),
            Type::UpperHex => push_char(out, 'X'),
            Type::Pointer => push_char(out, 'p'),
            Type::LowerExp => push_char(out, 'e'),
            Type::UpperExp => push_char(out, 'E'),
            Type::Debug => push_char(out, '?'),
            Type::Display => {},
        }
        assert(out@ =~= old(out)@ + type_text(*self));
    }
}

impl Alignment {
    /// Appends the character of the alignment.
    pub fn write_to(&self, out: &mut String)
        ensures
            final(out)@ == old(out)@ + alignment_text(*self),
    {
        match self {
            Alignment::Left => push_char(out, '<'),
            Alignment::Center => push_char(out, '^'),
            Alignment::Right => push_char(out, '>'),
            Alignment::Auto => {},
        }
        assert(out@ =~= old(out)@ + alignment_text(*self));
    }
}

impl ArgumentKey {
    /// Appends the key as written in a template.
    pub fn write_to(&self, out: &mut String)
        ensures
            final(out)@ == old(out)@ + key_text(*self),
    {
        match self {
            ArgumentKey::Index(i) => push_decimal(out, *i),
            ArgumentKey::Name(n) => push_str(out, n.as_str()),
        }
    }
}

impl Width {
    /// Appends the width as written in a specifier.
    pub fn write_to(&self, out: &mut String)
        ensures
            final(out)@ == old(out)@ + width_text(*self),
    {
        match self {
            Width::Dynamic(k) => {
                k.write_to(out);
                push_char(out, '$');
            },
            Width::Fixed(n) => push_decimal(out, *n as usize),
        }
        assert(out@ =~= old(out)@ + width_text(*self));
    }
}

impl Precision {
    /// Appends the precision as written in a specifier.
    pub fn write_to(&self, out: &mut String)
        ensures
            final(out)@ == old(out)@ + precision_text(*self),
    {
        match self {
            Precision::Dynamic(k) => {
                push_char(out, '.');
                k.write_to(out);
                push_char(out, '$');
            },
            Precision::Fixed(n) => {
                push_char(out, '.');
                push_decimal(out, *n as usize);
            },
            Precision::Auto => {},
        }
        assert(out@ =~= old(out)@ + precision_text(*self));
    }
}

impl Specifier {
    fn write_flags(&self, out: &mut String)
        ensures
            final(out)@ == old(out)@ + flags_text(*self),
    {
        let ghost s1 = out@;
        if self.sign {
            push_char(out, '+');
        }
        let ghost s2 = out@;
        assert(s2 =~= s1 + (if self.sign { seq!['+'] } else { Seq::empty() }));
        if self.alternate_form {
            push_char(out, '#');
        }
        let ghost s3 = out@;
        assert(s3 =~= s2 + (if self.alternate_form { seq!['#'] } else { Seq::empty() }));
        if self.pad_zero {
            push_char(out, '0');
        }
        assert(out@ =~= s3 + (if self.pad_zero { seq!['0'] } else { Seq::empty() }));
        assert(out@ =~= s1 + flags_text(*self));
    }

    /// Appends the specifier as written in a template.
    pub fn write_to(&self, out: &mut String)
        ensures
            final(out)@ == old(out)@ + specifier_text(*self),
    {
        let ghost s0 = out@;
        push_char(out, self.fill_character);
        let ghost s1 = out@;
        self.alignment.write_to(out);
        let ghost s2 = out@;
        self.write_flags(out);
        let ghost s3 = out@;
        self.width.write_to(out);
        let ghost s4 = out@;
        self.precision.write_to(out);
        let ghost s5 = out@;
        self.ty.write_to(out);
        let ghost t1 = seq![self.fill_character];
        let ghost t2 = t1 + alignment_text(self.alignment);
        let ghost t3 = t2 + flags_text(*self);
        let ghost t4 = t3 + width_text(self.width);
        let ghost t5 = t4 + precision_text(self.precision);
        assert(s1 =~= s0 + t1);
        assert(s2 =~= s0 + t2);
        assert(s3 =~= s0 + t3);
        assert(s4 =~= s0 + t4);
        assert(s5 =~= s0 + t5);
        assert(out@ =~= s0 + (t5 + type_text(self.ty)));
    }
}

impl Piece {
    /// Appends the piece as written in a template.
    pub fn write_to(&self, out: &mut String)
        requires
            match *self {
                Piece::Argument { name, .. } => writable_name(name),
                _ => true,
            },
        ensures
            final(out)@ == old(out)@ + piece_text(*self),
    {
        let ghost start = out@;
        match self {
            Piece::Literal(l) => push_str(out, l.as_str()),
            Piece::BracketOpen => {
                push_char(out, '{');
                push_char(out, '{');
            },
            Piece::BracketClose => {
                push_char(out, '}');
                push_char(out, '}');
            },
            Piece::Argument { name, specifier } => {
                push_char(out, '{');
                match name {
                    ArgumentName::ArgumentKey(k) => k.write_to(out),
                    ArgumentName::Const(NameRef::Ast { origin, path }) => {
                        let n = reference_name_text(origin, path);
                        push_str(out, n.as_str());
                    },
                    ArgumentName::Const(NameRef::Other(_)) => {},
                }
                match specifier {
                    Some(s) => {
                        push_char(out, ':');
                        s.write_to(out);
                    },
                    None => {},
                }
                push_char(out, '}');
            },
        }
        assert(out@ =~= start + piece_text(*self));
    }
}

impl Template {
    /// The template as written out, in the syntax of Rust's format strings.
    pub fn to_text(&self) -> (r: String)
        requires
            writable_template(self.0@),
        ensures
            r@ == template_text(self.0@),
    {
        let mut out = String::new();
        let mut i: usize = 0;
        while i < self.0.len()
            invariant
                i <= self.0@.len(),
                writable_template(self.0@),
                out@ == template_text(self.0@.subrange(0, i as int)),
            decreases self.0@.len() - i,
        {
            assert(self.0@.subrange(0, i + 1).drop_last() =~= self.0@.subrange(0, i as int));
            let ghost piece = self.0@[i as int];
            assert(match piece {
                Piece::Argument { name, .. } => writable_name(name),
                _ => true,
            });
            self.0[i].write_to(&mut out);
            i = i + 1;
        }
        assert(self.0@.subrange(0, self.0@.len() as int) =~= self.0@);
        out
    }
}

} // verus!
