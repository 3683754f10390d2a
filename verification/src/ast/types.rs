//! Types of the Sorrel language.

use vstd::prelude::*;
use crate::lexer::{TokenKind, literal_of};
use crate::lexer::rules::{literal_kind, lemma_literal_kind};

verus! {

/// Unique identifier for a type variable
#[derive(Debug, Clone, Copy, PartialEq, Eq, Structural, PartialOrd, Hash)]
pub struct TypeId(pub usize);

/// Unique identifier used to track regions
#[derive(Debug, Clone, Copy, PartialEq, Eq, Structural, PartialOrd, Hash)]
pub struct RegionId(pub usize);

#[derive(Debug, PartialEq)]
pub enum Type {
    // Primitive types
    U8,
    U16,
    U32,
    U64,
    I8,
    I16,
    I32,
    I64,
    F32,
    F64,
    ISize,
    USize,
    Bool,
    Char,
    Str,
    Void,
    /// Type variable for polymorphic types
    Var(TypeId),
    /// A pointer type that is owned by a region
    Pointer(Box<Type>, RegionId),
    Array { element_type: Box<Type>, size: usize },
    Function { param_types: Vec<Type>, return_type: Box<Type> },
}

/// A type as a mathematical value: the same shape, with a function's
/// parameter types as a sequence.
#[verifier::ext_equal]
pub enum SpecType {
    U8,
    U16,
    U32,
    U64,
    I8,
    I16,
    I32,
    I64,
    F32,
    F64,
    ISize,
    USize,
    Bool,
    Char,
    Str,
    Void,
    Var(TypeId),
    Pointer(Box<SpecType>, RegionId),
    Array { element_type: Box<SpecType>, size: usize },
    Function { param_types: Seq<SpecType>, return_type: Box<SpecType> },
}

pub open spec fn type_view(t: Type) -> SpecType
    decreases t,
{
    match t {
        Type::U8 => SpecType::U8,
        Type::U16 => SpecType::U16,
        Type::U32 => SpecType::U32,
        Type::U64 => SpecType::U64,
        Type::I8 => SpecType::I8,
        Type::I16 => SpecType::I16,
        Type::I32 => SpecType::I32,
        Type::I64 => SpecType::I64,
        Type::F32 => SpecType::F32,
        Type::F64 => SpecType::F64,
        Type::ISize => SpecType::ISize,
        Type::USize => SpecType::USize,
        Type::Bool => SpecType::Bool,
        Type::Char => SpecType::Char,
        Type::Str => SpecType::Str,
        Type::Void => SpecType::Void,
        Type::Var(id) => SpecType::Var(id),
        Type::Pointer(inner, region) => SpecType::Pointer(Box::new(type_view(*inner)), region),
        Type::Array { element_type, size } => SpecType::Array {
            element_type: Box::new(type_view(*element_type)),
            size,
        },
        Type::Function { param_types, return_type } => SpecType::Function {
            param_types: Seq::new(
                param_types@.len(),
                |i: int|
                    if 0 <= i < param_types@.len() {
                        type_view(param_types@[i])
                    } else {
                        SpecType::Void
                    },
            ),
            return_type: Box::new(type_view(*return_type)),
        },
    }
}

/// An optional type's value.
pub open spec fn opt_type_view(t: Option<Type>) -> Option<SpecType> {
    match t {
        Some(t) => Some(type_view(t)),
        None => None,
    }
}

impl View for Type {
    type V = SpecType;

    open spec fn view(&self) -> SpecType {
        type_view(*self)
    }
}

/// The primitive type that a type-name token stands for.
pub open spec fn type_of_kind(kind: TokenKind) -> Option<SpecType> {
    match kind {
        TokenKind::U8 => Some(SpecType::U8),
        TokenKind::U16 => Some(SpecType::U16),
        TokenKind::U32 => Some(SpecType::U32),
        TokenKind::U64 => Some(SpecType::U64),
        TokenKind::I8 => Some(SpecType::I8),
        TokenKind::I16 => Some(SpecType::I16),
        TokenKind::I32 => Some(SpecType::I32),
        TokenKind::I64 => Some(SpecType::I64),
        TokenKind::F32 => Some(SpecType::F32),
        TokenKind::F64 => Some(SpecType::F64),
        TokenKind::ISize => Some(SpecType::ISize),
        TokenKind::USize => Some(SpecType::USize),
        TokenKind::BoolType => Some(SpecType::Bool),
        TokenKind::CharType => Some(SpecType::Char),
        TokenKind::StrType => Some(SpecType::Str),
        TokenKind::VoidType => Some(SpecType::Void),
        _ => None,
    }
}

/// The sixteen primitive types.
pub open spec fn primitive(t: SpecType) -> bool {
    match t {
        SpecType::U8 | SpecType::U16 | SpecType::U32 | SpecType::U64 | SpecType::I8 | SpecType::I16 | SpecType::I32
        | SpecType::I64 | SpecType::F32 | SpecType::F64 | SpecType::ISize | SpecType::USize | SpecType::Bool
        | SpecType::Char | SpecType::Str | SpecType::Void => true,
        _ => false,
    }
}

/// The primitive types that this module counts as numeric; `i8` and `i16`
/// are not among them.
pub open spec fn numeric(t: SpecType) -> bool {
    match t {
        SpecType::U8 | SpecType::U16 | SpecType::U32 | SpecType::U64 | SpecType::I32 | SpecType::I64 | SpecType::F32
        | SpecType::F64 | SpecType::ISize | SpecType::USize => true,
        _ => false,
    }
}

/// How a primitive type is written in source text; the other types have no
/// single name.
pub open spec fn type_spelling(t: SpecType) -> Option<Seq<char>> {
    match t {
        SpecType::U8 => Some(seq!['u', '8']),
        SpecType::U16 => Some(seq!['u', '1', '6']),
        SpecType::U32 => Some(seq!['u', '3', '2']),
        SpecType::U64 => Some(seq!['u', '6', '4']),
        SpecType::I8 => Some(seq!['i', '8']),
        SpecType::I16 => Some(seq!['i', '1', '6']),
        SpecType::I32 => Some(seq!['i', '3', '2']),
        SpecType::I64 => Some(seq!['i', '6', '4']),
        SpecType::F32 => Some(seq!['f', '3', '2']),
        SpecType::F64 => Some(seq!['f', '6', '4']),
        SpecType::ISize => Some(seq!['i', 's', 'i', 'z', 'e']),
        SpecType::USize => Some(seq!['u', 's', 'i', 'z', 'e']),
        SpecType::Bool => Some(seq!['b', 'o', 'o', 'l']),
        SpecType::Char => Some(seq!['c', 'h', 'a', 'r']),
        SpecType::Str => Some(seq!['s', 't', 'r']),
        SpecType::Void => Some(seq!['v', 'o', 'i', 'd']),
        _ => None,
    }
}

/// A token names a type exactly when the token is written the way that
/// type's name is: the token `f64` gives `F64`, `u32` gives `U32`, and so on
/// for every primitive type.
pub proof fn law_type_of_kind_spelling(k: TokenKind, t: SpecType)
    ensures
        type_of_kind(k) == Some(t) <==> (type_spelling(t) is Some && literal_of(k) == type_spelling(t)),
{
    lemma_literal_kind(k);
    if type_spelling(t) is Some && literal_of(k) == type_spelling(t) {
        assert(literal_kind(type_spelling(t)->Some_0) == Some(k));
        match t {
            _ => {},
        }
    }
}

/// The primitive types are exactly the types with a name of their own.
pub proof fn law_primitive_named(t: SpecType)
    ensures
        primitive(t) <==> type_spelling(t) is Some,
{
}

/// The numeric types, by name: every unsigned integer, every float, and the
/// signed integers of 32 bits or more (`i32`, `i64`, `isize`).
pub proof fn law_numeric_classes(t: SpecType)
    ensures
        numeric(t) <==> (type_spelling(t) matches Some(n) && (n[0] == 'u' || n[0] == 'f' || (n[0] == 'i'
            && n.len() >= 3 && n != seq!['i', '1', '6']))),
{
    match t {
        SpecType::I16 => {
            assert(type_spelling(t)->Some_0 =~= seq!['i', '1', '6']);
        },
        SpecType::ISize => {
            assert(type_spelling(t)->Some_0 !~= seq!['i', '1', '6']);
        },
        _ => {},
    }
}

impl Type {
    pub fn from_token_kind(kind: &TokenKind) -> (r: Option<Type>)
        ensures
            opt_type_view(r) == type_of_kind(*kind),
    {
        match kind {
            TokenKind::U8 => Some(Type::U8),
            TokenKind::U16 => Some(Type::U16),
            TokenKind::U32 => Some(Type::U32),
            TokenKind::U64 => Some(Type::U64),
            TokenKind::I8 => Some(Type::I8),
            TokenKind::I16 => Some(Type::I16),
            TokenKind::I32 => Some(Type::I32),
            TokenKind::I64 => Some(Type::I64),
            TokenKind::F32 => Some(Type::F32),
            TokenKind::F64 => Some(Type::F64),
            TokenKind::ISize => Some(Type::ISize),
            TokenKind::USize => Some(Type::USize),
            TokenKind::BoolType => Some(Type::Bool),
            TokenKind::CharType => Some(Type::Char),
            TokenKind::StrType => Some(Type::Str),
            TokenKind::VoidType => Some(Type::Void),
            _ => None,
        }
    }

    pub fn is_primitive(&self) -> (r: bool)
        ensures
            r == primitive(self@),
    {
        match self {
            Type::U8 | Type::U16 | Type::U32 | Type::U64 | Type::I8 | Type::I16 | Type::I32
            | Type::I64 | Type::F32 | Type::F64 | Type::ISize | Type::USize | Type::Bool
            | Type::Char | Type::Str | Type::Void => true,
            _ => false,
        }
    }

    pub fn is_numeric(&self) -> (r: bool)
        ensures
            r == numeric(self@),
    {
        match self {
            Type::U8 | Type::U16 | Type::U32 | Type::U64 | Type::I32 | Type::I64 | Type::F32
            | Type::F64 | Type::ISize | Type::USize => true,
            _ => false,
        }
    }
}

/// Every type that a token names is primitive.
pub proof fn lemma_token_types_primitive(kind: TokenKind)
    ensures
        type_of_kind(kind) matches Some(t) ==> primitive(t),
{
}

/// Numeric types are primitive.
pub proof fn lemma_numeric_primitive(t: SpecType)
    ensures
        numeric(t) ==> primitive(t),
{
}


impl Clone for Type {
    /// A copy of the type.
    #[verifier::loop_isolation(false)]
    fn clone(&self) -> (r: Self)
        ensures
            r@ == self@,
        decreases self,
    {
        match self {
            Type::U8 => Type::U8,
            Type::U16 => Type::U16,
            Type::U32 => Type::U32,
            Type::U64 => Type::U64,
            Type::I8 => Type::I8,
            Type::I16 => Type::I16,
            Type::I32 => Type::I32,
            Type::I64 => Type::I64,
            Type::F32 => Type::F32,
            Type::F64 => Type::F64,
            Type::ISize => Type::ISize,
            Type::USize => Type::USize,
            Type::Bool => Type::Bool,
            Type::Char => Type::Char,
            Type::Str => Type::Str,
            Type::Void => Type::Void,
            Type::Var(id) => Type::Var(*id),
            Type::Pointer(inner, region) => Type::Pointer(Box::new((**inner).clone()), *region),
            Type::Array { element_type, size } => Type::Array {
                element_type: Box::new((**element_type).clone()),
                size: *size,
            },
            Type::Function { param_types, return_type } => {
                let mut params: Vec<Type> = Vec::new();
                let mut i: usize = 0;
                while i < param_types.len()
                    invariant
                        0 <= i <= param_types@.len(),
                        params@.len() == i,
                        forall|k: int| 0 <= k < i ==> #[trigger] params@[k]@ == param_types@[k]@,
                    decreases param_types@.len() - i,
                {
                    proof {
                        assert(decreases_to!(*self => *param_types));
                        assert(decreases_to!(*param_types => param_types@));
                        assert(decreases_to!(param_types@ => param_types@[i as int]));
                    }
                    params.push(param_types[i].clone());
                    i = i + 1;
                }
                let r = Type::Function { param_types: params, return_type: Box::new((**return_type).clone()) };
                proof {
                    let a = r@->Function_param_types;
                    let b = self@->Function_param_types;
                    assert(a.len() == b.len());
                    assert forall|k: int| 0 <= k < a.len() implies a[k] == b[k] by {
                        assert(a[k] == params@[k]@);
                        assert(b[k] == param_types@[k]@);
                    }
                    assert(a =~= b);
                }
                r
            },
        }
    }
}

} // verus!
