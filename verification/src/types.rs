//! Static type descriptors of runtime values.

use vstd::prelude::*;
use vstd::std_specs::cmp::PartialEqSpecImpl;

verus! {

/// The static type that a value or a declaration reports.
///
/// Two descriptors are equal exactly when they have the same shape, so `==`
/// in contracts and `==` in code agree.
#[derive(Debug)]
pub enum AstType {
    /// No type can be inferred, as for the elements of an empty array.
    Unknown,
    Void,
    Bool,
    Int,
    Float,
    String,
    Dynamic,
    Index,
    Task,
    Array(AstArrayType),
    Mapping(AstMapType),
    Func(AstFuncType),
    /// A tuple of the given number of components.
    Tuple(usize),
}

/// Type of an array whose elements have type `base_type`.
#[derive(Debug)]
pub struct AstArrayType {
    pub base_type: Box<AstType>,
}

/// Type of a map from `key_type` to `value_type`.
#[derive(Debug)]
pub struct AstMapType {
    pub key_type: Box<AstType>,
    pub value_type: Box<AstType>,
}

/// Type of a callable that takes `arg_count` arguments.
#[derive(Debug)]
pub struct AstFuncType {
    pub arg_count: usize,
}

impl AstArrayType {
    /// The array type over `base_type`.
    pub open spec fn of(base_type: AstType) -> AstType {
        AstType::Array(AstArrayType { base_type: Box::new(base_type) })
    }

    #[verifier::when_used_as_spec(of)]
    pub fn new(base_type: AstType) -> (t: AstType)
        ensures
            t == Self::of(base_type),
    {
        AstType::Array(AstArrayType { base_type: Box::new(base_type) })
    }
}

impl AstMapType {
    /// The map type from `key_type` to `value_type`.
    pub open spec fn of(key_type: AstType, value_type: AstType) -> AstType {
        AstType::Mapping(
            AstMapType { key_type: Box::new(key_type), value_type: Box::new(value_type) },
        )
    }

    #[verifier::when_used_as_spec(of)]
    pub fn new(key_type: AstType, value_type: AstType) -> (t: AstType)
        ensures
            t == Self::of(key_type, value_type),
    {
        AstType::Mapping(AstMapType { key_type: Box::new(key_type), value_type: Box::new(value_type) })
    }
}

impl AstFuncType {
    /// The type of a callable with `arg_count` parameters.
    pub open spec fn of(arg_count: usize) -> AstType {
        AstType::Func(AstFuncType { arg_count })
    }

    #[verifier::when_used_as_spec(of)]
    pub fn new(arg_count: usize) -> (t: AstType)
        ensures
            t == Self::of(arg_count),
    {
        AstType::Func(AstFuncType { arg_count })
    }
}

impl Clone for AstType {
    fn clone(&self) -> (t: Self)
        ensures
            t == *self,
        decreases self,
    {
        match self {
            AstType::Unknown => AstType::Unknown,
            AstType::Void => AstType::Void,
            AstType::Bool => AstType::Bool,
            AstType::Int => AstType::Int,
            AstType::Float => AstType::Float,
            AstType::String => AstType::String,
            AstType::Dynamic => AstType::Dynamic,
            AstType::Index => AstType::Index,
            AstType::Task => AstType::Task,
            AstType::Array(a) => AstArrayType::new((&*a.base_type).clone()),
            AstType::Mapping(m) => AstMapType::new((&*m.key_type).clone(), (&*m.value_type).clone()),
            AstType::Func(f) => AstFuncType::new(f.arg_count),
            AstType::Tuple(n) => AstType::Tuple(*n),
        }
    }
}

impl PartialEq for AstType {
    fn eq(&self, other: &Self) -> (same: bool)
        decreases self,
    {
        match (self, other) {
            (AstType::Unknown, AstType::Unknown) => true,
            (AstType::Void, AstType::Void) => true,
            (AstType::Bool, AstType::Bool) => true,
            (AstType::Int, AstType::Int) => true,
            (AstType::Float, AstType::Float) => true,
            (AstType::String, AstType::String) => true,
            (AstType::Dynamic, AstType::Dynamic) => true,
            (AstType::Index, AstType::Index) => true,
            (AstType::Task, AstType::Task) => true,
            (AstType::Array(a), AstType::Array(b)) => (&*a.base_type).eq(&*b.base_type),
            (AstType::Mapping(a), AstType::Mapping(b)) => {
                (&*a.key_type).eq(&*b.key_type) && (&*a.value_type).eq(&*b.value_type)
            },
            (AstType::Func(a), AstType::Func(b)) => a.arg_count == b.arg_count,
            (AstType::Tuple(a), AstType::Tuple(b)) => *a == *b,
            _ => false,
        }
    }
}

impl PartialEqSpecImpl for AstType {
    open spec fn obeys_eq_spec() -> bool {
        true
    }

    open spec fn eq_spec(&self, other: &Self) -> bool {
        *self == *other
    }
}

impl Eq for AstType {}

} // verus!
