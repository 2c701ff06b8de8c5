use vstd::prelude::*;

verus! {

/// A value type that a component may expose across the boundary.
#[derive(Debug, PartialEq)]
pub enum Type {
    Int8,
    UInt8,
    Int16,
    UInt16,
    Int32,
    UInt32,
    Int64,
    UInt64,
    Float32,
    Float64,
    Boolean,
    String,
    Enum(String),
    Record(String),
    Object(String),
    Error(String),
    Optional(Box<Type>),
    Sequence(Box<Type>),
    StringMap(Box<Type>),
}

/// The ABI-level shape that a `Type` reduces to.
#[derive(Debug, Clone, Copy, PartialEq, Eq, Structural)]
pub enum FFIType {
    Int8,
    UInt8,
    Int16,
    UInt16,
    Int32,
    UInt32,
    Int64,
    UInt64,
    Float32,
    Float64,
    /// A length-prefixed byte buffer owned by the native side.
    RustBuffer,
    /// The out-of-band error structure of a call.
    RustError,
    /// A nul-terminated string owned by the native side.
    RustCString,
    /// A byte range owned by the foreign side.
    ForeignBytes,
    /// A borrowed nul-terminated string owned by the foreign side.
    ForeignStringRef,
    /// A pointer-sized handle to a registered native object.
    Handle,
}

/// The ABI shape of each type: scalars keep their width, booleans are one
/// byte, enums travel as their 4-byte discriminant, objects as a handle, and
/// everything that needs recursive serialisation travels in a buffer.
pub open spec fn classify_spec(t: Type) -> FFIType {
    match t {
        Type::Int8 => FFIType::Int8,
        Type::UInt8 => FFIType::UInt8,
        Type::Int16 => FFIType::Int16,
        Type::UInt16 => FFIType::UInt16,
        Type::Int32 => FFIType::Int32,
        Type::UInt32 => FFIType::UInt32,
        Type::Int64 => FFIType::Int64,
        Type::UInt64 => FFIType::UInt64,
        Type::Float32 => FFIType::Float32,
        Type::Float64 => FFIType::Float64,
        Type::Boolean => FFIType::UInt8,
        Type::Enum(_) => FFIType::UInt32,
        Type::Object(_) => FFIType::Handle,
        Type::String
        | Type::Record(_)
        | Type::Error(_)
        | Type::Optional(_)
        | Type::Sequence(_)
        | Type::StringMap(_) => FFIType::RustBuffer,
    }
}

/// Structural equality of types: same variants, same names, same nesting.
pub open spec fn same_type(a: Type, b: Type) -> bool
    decreases a,
{
    match (a, b) {
        (Type::Enum(x), Type::Enum(y)) => x@ == y@,
        (Type::Record(x), Type::Record(y)) => x@ == y@,
        (Type::Object(x), Type::Object(y)) => x@ == y@,
        (Type::Error(x), Type::Error(y)) => x@ == y@,
        (Type::Optional(x), Type::Optional(y)) => same_type(*x, *y),
        (Type::Sequence(x), Type::Sequence(y)) => same_type(*x, *y),
        (Type::StringMap(x), Type::StringMap(y)) => same_type(*x, *y),
        (Type::Enum(_), _) | (Type::Record(_), _) | (Type::Object(_), _) | (Type::Error(_), _)
        | (Type::Optional(_), _) | (Type::Sequence(_), _) | (Type::StringMap(_), _) => false,
        _ => a == b,
    }
}

/// True for the types whose ABI shape is a buffer.
pub open spec fn is_buffer_type(t: Type) -> bool {
    classify_spec(t) == FFIType::RustBuffer
}

/// The ABI shape of a type.
pub fn classify(t: &Type) -> (r: FFIType)
    ensures
        r == classify_spec(*t),
{
    match t {
        Type::Int8 => FFIType::Int8,
        Type::UInt8 => FFIType::UInt8,
        Type::Int16 => FFIType::Int16,
        Type::UInt16 => FFIType::UInt16,
        Type::Int32 => FFIType::Int32,
        Type::UInt32 => FFIType::UInt32,
        Type::Int64 => FFIType::Int64,
        Type::UInt64 => FFIType::UInt64,
        Type::Float32 => FFIType::Float32,
        Type::Float64 => FFIType::Float64,
        Type::Boolean => FFIType::UInt8,
        Type::Enum(_) => FFIType::UInt32,
        Type::Object(_) => FFIType::Handle,
        Type::String
        | Type::Record(_)
        | Type::Error(_)
        | Type::Optional(_)
        | Type::Sequence(_)
        | Type::StringMap(_) => FFIType::RustBuffer,
    }
}

/// Classification depends on a type's structure alone: two structurally
/// equal types, however they were built, get the same ABI shape.
pub proof fn lemma_classify_deterministic(a: Type, b: Type)
    requires
        same_type(a, b),
    ensures
        classify_spec(a) == classify_spec(b),
{
}

/// Every composite type, and `String`, travels in a buffer, never as a scalar.
pub proof fn lemma_composites_are_buffers(t: Type)
    requires
        t is String || t is Record || t is Error || t is Optional || t is Sequence
            || t is StringMap,
    ensures
        is_buffer_type(t),
{
}

} // verus!
