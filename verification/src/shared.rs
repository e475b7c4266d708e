//! Types shared by every stage of the intermediate representation.

use vstd::prelude::*;
use crate::pos::{Span, Spanned};
use nan_preserving_float::{F32, F64};

verus! {

/// `nan_preserving_float::F32`: a 32-bit float kept as its bit pattern.
/// Nothing is claimed of it; values of it are only carried along.
#[verifier::external_type_specification]
#[verifier::external_body]
pub struct ExF32(F32);

/// `nan_preserving_float::F64`: a 64-bit float kept as its bit pattern.
/// Nothing is claimed of it; values of it are only carried along.
#[verifier::external_type_specification]
#[verifier::external_body]
pub struct ExF64(F64);

/// The concrete types of the language.
#[derive(Clone, Copy, Debug, PartialEq, Eq, Structural)]
pub enum Type {
    Void,
    Bool,
    I32,
    I64,
    U32,
    U64,
    F32,
    F64,
}

impl Type {
    /// This type with a span that points at no source text.
    pub fn synthetic(self, label: &'static str) -> (ty: Spanned<Type>)
        ensures
            ty == (Spanned { node: self, span: Span::Synthetic(label) }),
    {
        Spanned { node: self, span: Span::Synthetic(label) }
    }

    /// This type as written at `start..end` of the source text.
    pub fn at(self, start: usize, end: usize) -> (ty: Spanned<Type>)
        ensures
            ty == (Spanned { node: self, span: Span::Bytes { start, end } }),
    {
        Spanned { node: self, span: Span::Bytes { start, end } }
    }
}

/// A literal whose type is known.
#[derive(Clone, Copy, Debug, PartialEq)]
pub enum ConstExpression {
    Bool(bool),
    I32(i32),
    I64(i64),
    U32(u32),
    U64(u64),
    F32(F32),
    F64(F64),
}

impl ConstExpression {
    /// The type a literal of this kind has.
    pub open spec fn spec_ty(self) -> Type {
        match self {
            ConstExpression::Bool(_) => Type::Bool,
            ConstExpression::I32(_) => Type::I32,
            ConstExpression::I64(_) => Type::I64,
            ConstExpression::U32(_) => Type::U32,
            ConstExpression::U64(_) => Type::U64,
            ConstExpression::F32(_) => Type::F32,
            ConstExpression::F64(_) => Type::F64,
        }
    }

    /// The type a literal of this kind has.
    #[verifier::when_used_as_spec(spec_ty)]
    pub fn ty(self) -> (ty: Type)
        ensures
            ty == self.spec_ty(),
    {
        match self {
            ConstExpression::Bool(_) => Type::Bool,
            ConstExpression::I32(_) => Type::I32,
            ConstExpression::I64(_) => Type::I64,
            ConstExpression::U32(_) => Type::U32,
            ConstExpression::U64(_) => Type::U64,
            ConstExpression::F32(_) => Type::F32,
            ConstExpression::F64(_) => Type::F64,
        }
    }
}

/// The arithmetic operators.
#[derive(Clone, Copy, Debug, PartialEq, Eq, Structural)]
pub enum MathOperator {
    Add,
    Sub,
    Mul,
    Div,
}

/// What can go wrong while solving type constraints.
#[derive(Clone, Copy, Debug, PartialEq, Eq)]
pub enum TypeError {
    /// Two concrete types were required to be equal and are not.
    Mismatch { left: Spanned<Type>, right: Spanned<Type> },
    /// A type variable was still free when inference ended.
    Ambiguous { variable: usize },
}

/// What can go wrong while a program is compiled, besides bad syntax.
#[derive(Clone, Copy, Debug, PartialEq, Eq)]
pub enum CompileError {
    /// The types of the program do not fit together.
    Type(TypeError),
    /// The integer literal at `start..end` is too large.
    LiteralOutOfRange { start: usize, end: usize },
}

/// Properties of a function besides its signature.
#[derive(Clone, Copy, Debug, PartialEq, Eq, Structural)]
pub struct FunctionModifiers {
    pub export: bool,
}

impl FunctionModifiers {
    /// The modifiers of a plain, unexported function.
    pub fn new() -> (modifiers: Self)
        ensures
            !modifiers.export,
    {
        FunctionModifiers { export: false }
    }
}

} // verus!
