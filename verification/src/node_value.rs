use vstd::prelude::*;

use crate::ast::Ast;
use crate::identifier::Identifier;
use crate::template::Template;

verus! {

/// The kind of a composite node.
#[derive(Debug)]
pub enum CompositeValue {
    Struct,
    Tuple,
    /// Also holds byte strings, as a list of `u8`.
    List { amount: usize },
}

impl Clone for CompositeValue {
    fn clone(&self) -> (r: Self)
        ensures
            r == *self,
    {
        match self {
            CompositeValue::Struct => CompositeValue::Struct,
            CompositeValue::Tuple => CompositeValue::Tuple,
            CompositeValue::List { amount } => CompositeValue::List { amount: *amount },
        }
    }
}

/// The value of a leaf node.
#[derive(Debug)]
pub enum LiteralValue {
    String(StringValue),
    Char(char),
    Float(FloatValue),
    Integer(IntegerValue),
    Bool(bool),
    /// A Rust expression of the type `ty`, written as text.
    Cast { expression: String, ty: String },
}

/// The value of a string literal, its template by its view.
pub enum StringValueView {
    Literal(String),
    Template(Seq<crate::template::PieceView>),
}

/// The value of a literal, its template by its view.
pub enum LiteralValueView {
    String(StringValueView),
    Char(char),
    Float(FloatValue),
    Integer(IntegerValue),
    Bool(bool),
    Cast { expression: String, ty: String },
}

impl View for StringValue {
    type V = StringValueView;

    open spec fn view(&self) -> StringValueView {
        match self {
            StringValue::Literal(s) => StringValueView::Literal(*s),
            StringValue::Template(t) => StringValueView::Template(t@),
        }
    }
}

impl View for LiteralValue {
    type V = LiteralValueView;

    open spec fn view(&self) -> LiteralValueView {
        match self {
            LiteralValue::String(s) => LiteralValueView::String(s@),
            LiteralValue::Char(c) => LiteralValueView::Char(*c),
            LiteralValue::Float(f) => LiteralValueView::Float(*f),
            LiteralValue::Integer(i) => LiteralValueView::Integer(*i),
            LiteralValue::Bool(b) => LiteralValueView::Bool(*b),
            LiteralValue::Cast { expression, ty } => LiteralValueView::Cast { expression: *expression, ty: *ty },
        }
    }
}

impl Clone for FloatValue {
    fn clone(&self) -> (r: Self)
        ensures
            r == *self,
    {
        match self {
            FloatValue::F64(b) => FloatValue::F64(*b),
            FloatValue::F32(b) => FloatValue::F32(*b),
        }
    }
}

impl Clone for IntegerValue {
    fn clone(&self) -> (r: Self)
        ensures
            r == *self,
    {
        match self {
            IntegerValue::I128(v) => IntegerValue::I128(*v),
            IntegerValue::U128(v) => IntegerValue::U128(*v),
            IntegerValue::I64(v) => IntegerValue::I64(*v),
            IntegerValue::U64(v) => IntegerValue::U64(*v),
            IntegerValue::I32(v) => IntegerValue::I32(*v),
            IntegerValue::U32(v) => IntegerValue::U32(*v),
            IntegerValue::I16(v) => IntegerValue::I16(*v),
            IntegerValue::U16(v) => IntegerValue::U16(*v),
            IntegerValue::I8(v) => IntegerValue::I8(*v),
            IntegerValue::U8(v) => IntegerValue::U8(*v),
            IntegerValue::Usize(v) => IntegerValue::Usize(*v),
        }
    }
}

impl Clone for StringValue {
    fn clone(&self) -> (r: Self)
        ensures
            r@ == self@,
    {
        match self {
            StringValue::Literal(s) => StringValue::Literal(s.clone()),
            StringValue::Template(t) => StringValue::Template(t.clone()),
        }
    }
}

impl Clone for LiteralValue {
    fn clone(&self) -> (r: Self)
        ensures
            r@ == self@,
    {
        match self {
            LiteralValue::String(s) => LiteralValue::String(s.clone()),
            LiteralValue::Char(c) => LiteralValue::Char(*c),
            LiteralValue::Float(f) => LiteralValue::Float(f.clone()),
            LiteralValue::Integer(i) => LiteralValue::Integer(i.clone()),
            LiteralValue::Bool(b) => LiteralValue::Bool(*b),
            LiteralValue::Cast { expression, ty } => LiteralValue::Cast { expression: expression.clone(), ty: ty.clone() },
        }
    }
}

/// The value of a node: a composite with its children, each under its
/// identifier, or a literal.
#[derive(Debug)]
pub enum NodeValue {
    Composite { children: Vec<(Identifier, Ast)>, value: CompositeValue },
    Literal(LiteralValue),
}

/// A floating point literal, held as the bit pattern of its IEEE 754 value.
#[derive(Debug)]
pub enum FloatValue {
    F64(u64),
    F32(u32),
}

/// An integer literal with its type.
#[derive(Debug)]
pub enum IntegerValue {
    I128(i128),
    U128(u128),
    I64(i64),
    U64(u64),
    I32(i32),
    U32(u32),
    I16(i16),
    U16(u16),
    I8(i8),
    U8(u8),
    Usize(usize),
}

/// The mathematical value of an integer literal.
pub open spec fn integer_value(v: IntegerValue) -> int {
    match v {
        IntegerValue::I128(x) => x as int,
        IntegerValue::U128(x) => x as int,
        IntegerValue::I64(x) => x as int,
        IntegerValue::U64(x) => x as int,
        IntegerValue::I32(x) => x as int,
        IntegerValue::U32(x) => x as int,
        IntegerValue::I16(x) => x as int,
        IntegerValue::U16(x) => x as int,
        IntegerValue::I8(x) => x as int,
        IntegerValue::U8(x) => x as int,
        IntegerValue::Usize(x) => x as int,
    }
}

impl IntegerValue {
    /// The value as a `usize`, or `None` where it is negative or does not
    /// fit.
    pub fn to_usize(&self) -> (r: Option<usize>)
        ensures
            r is Some <==> 0 <= integer_value(*self) <= usize::MAX,
            r matches Some(n) ==> n as int == integer_value(*self),
    {
        match *self {
            IntegerValue::I128(v) => Self::convert_signed(v),
            IntegerValue::U128(v) => Self::convert_unsigned(v),
            IntegerValue::I64(v) => Self::convert_signed(v as i128),
            IntegerValue::U64(v) => Self::convert_unsigned(v as u128),
            IntegerValue::I32(v) => Self::convert_signed(v as i128),
            IntegerValue::U32(v) => Some(v as usize),
            IntegerValue::I16(v) => Self::convert_signed(v as i128),
            IntegerValue::U16(v) => Some(v as usize),
            IntegerValue::I8(v) => Self::convert_signed(v as i128),
            IntegerValue::U8(v) => Some(v as usize),
            IntegerValue::Usize(v) => Some(v),
        }
    }

    fn convert_signed(value: i128) -> (r: Option<usize>)
        ensures
            r is Some <==> 0 <= value <= usize::MAX,
            r matches Some(n) ==> n == value,
    {
        if value >= 0 && value <= usize::MAX as i128 {
            Some(value as usize)
        } else {
            None
        }
    }

    fn convert_unsigned(value: u128) -> (r: Option<usize>)
        ensures
            r is Some <==> value <= usize::MAX,
            r matches Some(n) ==> n == value,
    {
        if value <= usize::MAX as u128 {
            Some(value as usize)
        } else {
            None
        }
    }
}

/// A string literal: plain text, or a template with arguments.
#[derive(Debug)]
pub enum StringValue {
    Literal(String),
    Template(Template),
}

} // verus!
