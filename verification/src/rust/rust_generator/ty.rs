use vstd::prelude::*;

use crate::ast::Ast;
use crate::node_value::{CompositeValue, FloatValue, IntegerValue, LiteralValue, NodeValue, StringValue};
use crate::rust::generator::path::{equal_positions, gen_mods, gen_ty, path_text, Path};
use crate::rust::rust_generator::context::Context;
use crate::rust::shared::name::pascal_text;
use crate::text::{push_chars, push_str};
use vstd::arithmetic::power2::{lemma2_to64, lemma2_to64_rest, lemma_pow2_adds, pow2};

verus! {

/// The Rust type of a generated value.
pub enum RustType {
    String,
    Char,
    Bool,
    Float { bits: u8 },
    Usize,
    Integer { unsigned: bool, bits: u8 },
    List(Path),
    Tuple(Path),
    Format(Path),
    Struct(Path),
    Other(Path),
    /// A type written out by the author, as text.
    Cast(String),
}

/// The modules of the generated path of the node `id`, from the root of
/// the component.
pub open spec fn root_mods(ctx: Context, id: crate::node_id::NodeId) -> Seq<Seq<char>> {
    gen_mods(ctx.rel(id))
}

/// The type of the generated path of the node `id`: the component's type
/// for a node at the top of its localization.
pub open spec fn root_ty(ctx: Context, id: crate::node_id::NodeId) -> Option<Seq<char>> {
    if gen_mods(ctx.rel(id)).len() == 0 {
        Some(pascal_text(ctx.root_name@))
    } else {
        gen_ty(ctx.rel(id))
    }
}

/// The modules of the path `mods` seen from the path `root`: the modules
/// they share in front are dropped.
pub open spec fn mods_relative_to(mods: Seq<Seq<char>>, root: Seq<Seq<char>>) -> Seq<Seq<char>> {
    mods.skip(equal_positions(root, mods, if root.len() < mods.len() { root.len() as int } else { mods.len() as int }) as int)
}

/// `p` is the generated path of the node `id` seen from `root`.
pub open spec fn is_type_path(p: Path, ctx: Context, id: crate::node_id::NodeId, root: Path) -> bool {
    &&& p.mods_v() == mods_relative_to(root_mods(ctx, id), root.mods_v())
    &&& p.ty_v() == root_ty(ctx, id)
}

/// The sign and width of an integer value; `None` for `usize`.
pub open spec fn integer_kind(i: IntegerValue) -> Option<(bool, u8)> {
    match i {
        IntegerValue::Usize(_) => None,
        IntegerValue::I128(_) => Some((false, 128u8)),
        IntegerValue::U128(_) => Some((true, 128u8)),
        IntegerValue::I64(_) => Some((false, 64u8)),
        IntegerValue::U64(_) => Some((true, 64u8)),
        IntegerValue::I32(_) => Some((false, 32u8)),
        IntegerValue::U32(_) => Some((true, 32u8)),
        IntegerValue::I16(_) => Some((false, 16u8)),
        IntegerValue::U16(_) => Some((true, 16u8)),
        IntegerValue::I8(_) => Some((false, 8u8)),
        IntegerValue::U8(_) => Some((true, 8u8)),
    }
}

/// The least value of the integer type with the sign and the width.
pub open spec fn int_type_min(unsigned: bool, bits: u8) -> int {
    if unsigned {
        0
    } else {
        -(pow2((bits - 1) as nat) as int)
    }
}

/// The greatest value of the integer type with the sign and the width.
pub open spec fn int_type_max(unsigned: bool, bits: u8) -> int {
    if unsigned {
        pow2(bits as nat) - 1
    } else {
        pow2((bits - 1) as nat) - 1
    }
}

/// The least and greatest values of the Rust type that the integer literal
/// `i` was written in.
pub open spec fn literal_range(i: IntegerValue) -> (int, int) {
    match i {
        IntegerValue::I128(_) => (i128::MIN as int, i128::MAX as int),
        IntegerValue::U128(_) => (u128::MIN as int, u128::MAX as int),
        IntegerValue::I64(_) => (i64::MIN as int, i64::MAX as int),
        IntegerValue::U64(_) => (u64::MIN as int, u64::MAX as int),
        IntegerValue::I32(_) => (i32::MIN as int, i32::MAX as int),
        IntegerValue::U32(_) => (u32::MIN as int, u32::MAX as int),
        IntegerValue::I16(_) => (i16::MIN as int, i16::MAX as int),
        IntegerValue::U16(_) => (u16::MIN as int, u16::MAX as int),
        IntegerValue::I8(_) => (i8::MIN as int, i8::MAX as int),
        IntegerValue::U8(_) => (u8::MIN as int, u8::MAX as int),
        IntegerValue::Usize(_) => (usize::MIN as int, usize::MAX as int),
    }
}

/// The powers of two that bound the integer types.
pub proof fn lemma_integer_powers()
    ensures
        pow2(7) == 0x80,
        pow2(8) == 0x100,
        pow2(15) == 0x8000,
        pow2(16) == 0x10000,
        pow2(31) == 0x8000_0000,
        pow2(32) == 0x1_0000_0000,
        pow2(63) == 0x8000_0000_0000_0000,
        pow2(64) == 0x1_0000_0000_0000_0000,
        pow2(127) == 0x8000_0000_0000_0000_0000_0000_0000_0000,
        pow2(128) == 0x1_0000_0000_0000_0000_0000_0000_0000_0000,
{
    lemma2_to64();
    lemma2_to64_rest();
    lemma_pow2_adds(64, 63);
    lemma_pow2_adds(64, 64);
}

/// The integer type given to an integer literal (other than `usize`) holds
/// exactly the values of the type the literal was written in: its least
/// and greatest values are that type's.
pub proof fn law_integer_type_width(i: IntegerValue)
    requires
        !(i is Usize),
    ensures
        integer_kind(i) matches Some((unsigned, bits))
            && int_type_min(unsigned, bits) == literal_range(i).0
            && int_type_max(unsigned, bits) == literal_range(i).1,
{
    lemma_integer_powers();
}

/// The type that `RustType::new` gives an integer leaf (other than
/// `usize`) is an integer type whose least and greatest values are those of
/// the type the literal was written in, so a value of `N` bits gets a type
/// of `N` bits.
pub proof fn law_integer_leaf_type(r: RustType, node: Ast, ctx: Context, root: Path, i: IntegerValue)
    requires
        is_type_of(r, node, ctx, root),
        node.value == NodeValue::Literal(LiteralValue::Integer(i)),
        !(i is Usize),
    ensures
        r matches RustType::Integer { unsigned, bits }
            && int_type_min(unsigned, bits) == literal_range(i).0
            && int_type_max(unsigned, bits) == literal_range(i).1,
{
    law_integer_type_width(i);
}

/// The node's type is held at a generated path: it is composite or a
/// template.
pub open spec fn has_type_path(node: Ast) -> bool {
    match node.value {
        NodeValue::Composite { .. } => true,
        NodeValue::Literal(LiteralValue::String(StringValue::Template(_))) => true,
        _ => false,
    }
}

/// `r` is the Rust type of `node`, its path (where it has one) seen from
/// `root`.
pub open spec fn is_type_of(r: RustType, node: Ast, ctx: Context, root: Path) -> bool {
    match node.value {
        NodeValue::Composite { value: CompositeValue::Struct, .. } => r matches RustType::Struct(p) && is_type_path(p, ctx, node.id, root),
        NodeValue::Composite { value: CompositeValue::Tuple, .. } => r matches RustType::Tuple(p) && is_type_path(p, ctx, node.id, root),
        NodeValue::Composite { value: CompositeValue::List { .. }, .. } => r matches RustType::List(p) && is_type_path(p, ctx, node.id, root),
        NodeValue::Literal(LiteralValue::String(StringValue::Literal(_))) => r is String,
        NodeValue::Literal(LiteralValue::String(StringValue::Template(_))) => r matches RustType::Format(p) && is_type_path(p, ctx, node.id, root),
        NodeValue::Literal(LiteralValue::Char(_)) => r is Char,
        NodeValue::Literal(LiteralValue::Float(FloatValue::F64(_))) => r matches RustType::Float { bits } && bits == 64,
        NodeValue::Literal(LiteralValue::Float(FloatValue::F32(_))) => r matches RustType::Float { bits } && bits == 32,
        NodeValue::Literal(LiteralValue::Integer(i)) => match integer_kind(i) {
            Some((u, b)) => r matches RustType::Integer { unsigned, bits } && unsigned == u && bits == b,
            None => r is Usize,
        },
        NodeValue::Literal(LiteralValue::Bool(_)) => r is Bool,
        NodeValue::Literal(LiteralValue::Cast { ty, .. }) => r matches RustType::Cast(t) && t@ == ty@,
    }
}

/// The Rust type as written in the generated code.
pub open spec fn rust_type_text(t: RustType) -> Seq<char> {
    match t {
        RustType::String => seq!['&', '\'', 's', 't', 'a', 't', 'i', 'c', ' ', 's', 't', 'r'],
        RustType::Char => seq!['c', 'h', 'a', 'r'],
        RustType::Bool => seq!['b', 'o', 'o', 'l'],
        RustType::Float { bits } => if bits == 32 { seq!['f', '3', '2'] } else { seq!['f', '6', '4'] },
        RustType::Usize => seq!['u', 's', 'i', 'z', 'e'],
        RustType::Integer { unsigned, bits } => (if unsigned { seq!['u'] } else { seq!['i'] }) + crate::text::decimal(bits as nat),
        RustType::List(p) => path_text(p.mods_v(), p.ty_v()),
        RustType::Tuple(p) => path_text(p.mods_v(), p.ty_v()),
        RustType::Format(p) => path_text(p.mods_v(), p.ty_v()),
        RustType::Struct(p) => path_text(p.mods_v(), p.ty_v()),
        RustType::Other(p) => path_text(p.mods_v(), p.ty_v()),
        RustType::Cast(ty) => ty@,
    }
}

/// A type that can be written out: a float of 32 or 64 bits, an integer of
/// 8 to 128 bits.
pub open spec fn writable_type(t: RustType) -> bool {
    match t {
        RustType::Float { bits } => bits == 32 || bits == 64,
        RustType::Integer { bits, .. } => bits == 8 || bits == 16 || bits == 32 || bits == 64 || bits == 128,
        _ => true,
    }
}

impl RustType {
    /// The type of the generated value of `node`, a path seen from
    /// `relative_root`.
    pub fn new(node: &Ast, context: &Context, relative_root: &Path) -> (r: Self)
        requires
            context.wf(),
            has_type_path(*node) ==> context.has_id(node.id),
        ensures
            is_type_of(r, *node, *context, *relative_root),
    {
        match &node.value {
            NodeValue::Composite { value, .. } => {
                let p = context.relative_path_to_root(&node.id).relative_to(relative_root);
                match value {
                    CompositeValue::Struct => RustType::Struct(p),
                    CompositeValue::Tuple => RustType::Tuple(p),
                    CompositeValue::List { .. } => RustType::List(p),
                }
            },
            NodeValue::Literal(literal_value) => match literal_value {
                LiteralValue::String(StringValue::Literal(_)) => RustType::String,
                LiteralValue::String(StringValue::Template(..)) => RustType::Format(
                    context.relative_path_to_root(&node.id).relative_to(relative_root),
                ),
                LiteralValue::Char(_) => RustType::Char,
                LiteralValue::Float(FloatValue::F64(_)) => RustType::Float { bits: 64 },
                LiteralValue::Float(FloatValue::F32(_)) => RustType::Float { bits: 32 },
                LiteralValue::Integer(integer_value) => match integer_value {
                    IntegerValue::Usize(_) => RustType::Usize,
                    IntegerValue::I128(_) => RustType::Integer { unsigned: false, bits: 128 },
                    IntegerValue::U128(_) => RustType::Integer { unsigned: true, bits: 128 },
                    IntegerValue::I64(_) => RustType::Integer { unsigned: false, bits: 64 },
                    IntegerValue::U64(_) => RustType::Integer { unsigned: true, bits: 64 },
                    IntegerValue::I32(_) => RustType::Integer { unsigned: false, bits: 32 },
                    IntegerValue::U32(_) => RustType::Integer { unsigned: true, bits: 32 },
                    IntegerValue::I16(_) => RustType::Integer { unsigned: false, bits: 16 },
                    IntegerValue::U16(_) => RustType::Integer { unsigned: true, bits: 16 },
                    IntegerValue::I8(_) => RustType::Integer { unsigned: false, bits: 8 },
                    IntegerValue::U8(_) => RustType::Integer { unsigned: true, bits: 8 },
                },
                LiteralValue::Bool(_) => RustType::Bool,
                LiteralValue::Cast { ty, .. } => RustType::Cast(ty.clone()),
            },
        }
    }

    /// The type as written in the generated code.
    pub fn to_text(&self) -> (r: String)
        requires
            writable_type(*self),
        ensures
            r@ == rust_type_text(*self),
    {
        let mut out = String::new();
        match self {
            RustType::String => push_chars(&mut out, &['&', '\'', 's', 't', 'a', 't', 'i', 'c', ' ', 's', 't', 'r']),
            RustType::Char => push_chars(&mut out, &['c', 'h', 'a', 'r']),
            RustType::Bool => push_chars(&mut out, &['b', 'o', 'o', 'l']),
            RustType::Float { bits } => if *bits == 32 {
                push_chars(&mut out, &['f', '3', '2'])
            } else {
                push_chars(&mut out, &['f', '6', '4'])
            },
            RustType::Usize => push_chars(&mut out, &['u', 's', 'i', 'z', 'e']),
            RustType::Integer { unsigned, bits } => {
                if *unsigned {
                    push_chars(&mut out, &['u']);
                } else {
                    push_chars(&mut out, &['i']);
                }
                crate::text::push_decimal(&mut out, *bits as usize);
            },
            RustType::List(p) | RustType::Tuple(p) | RustType::Format(p) | RustType::Struct(p) | RustType::Other(p) => {
                let t = p.to_text();
                push_str(&mut out, t.as_str());
            },
            RustType::Cast(ty) => push_str(&mut out, ty.as_str()),
        }
        assert(out@ =~= rust_type_text(*self));
        out
    }
}

/// `a` and `b` are the same type: the same variant, with paths that lead
/// through the same modules to the same type and the same written types.
pub open spec fn same_type(a: RustType, b: RustType) -> bool {
    match (a, b) {
        (RustType::String, RustType::String) => true,
        (RustType::Char, RustType::Char) => true,
        (RustType::Bool, RustType::Bool) => true,
        (RustType::Usize, RustType::Usize) => true,
        (RustType::Float { bits: x }, RustType::Float { bits: y }) => x == y,
        (RustType::Integer { unsigned: u, bits: x }, RustType::Integer { unsigned: v, bits: y }) => u == v && x == y,
        (RustType::List(p), RustType::List(q)) => p.mods_v() == q.mods_v() && p.ty_v() == q.ty_v(),
        (RustType::Tuple(p), RustType::Tuple(q)) => p.mods_v() == q.mods_v() && p.ty_v() == q.ty_v(),
        (RustType::Format(p), RustType::Format(q)) => p.mods_v() == q.mods_v() && p.ty_v() == q.ty_v(),
        (RustType::Struct(p), RustType::Struct(q)) => p.mods_v() == q.mods_v() && p.ty_v() == q.ty_v(),
        (RustType::Other(p), RustType::Other(q)) => p.mods_v() == q.mods_v() && p.ty_v() == q.ty_v(),
        (RustType::Cast(x), RustType::Cast(y)) => x@ == y@,
        _ => false,
    }
}

impl Clone for RustType {
    fn clone(&self) -> (r: Self)
        ensures
            same_type(r, *self),
    {
        match self {
            RustType::String => RustType::String,
            RustType::Char => RustType::Char,
            RustType::Bool => RustType::Bool,
            RustType::Float { bits } => RustType::Float { bits: *bits },
            RustType::Usize => RustType::Usize,
            RustType::Integer { unsigned, bits } => RustType::Integer { unsigned: *unsigned, bits: *bits },
            RustType::List(p) => RustType::List(p.clone()),
            RustType::Tuple(p) => RustType::Tuple(p.clone()),
            RustType::Format(p) => RustType::Format(p.clone()),
            RustType::Struct(p) => RustType::Struct(p.clone()),
            RustType::Other(p) => RustType::Other(p.clone()),
            RustType::Cast(ty) => RustType::Cast(ty.clone()),
        }
    }
}

} // verus!
