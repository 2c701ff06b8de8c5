use vstd::prelude::*;
use crate::types::{Type, FFIType};
use crate::interface::ComponentInterface;
use crate::names::{
    camel_case_of, mixed_case_of, shouty_snake_case_of, to_camel_case, to_mixed_case,
    to_shouty_snake_case, concat, EmitError,
};

verus! {

/// Options for the generated bindings that leave the component itself as
/// it is. There are none yet.
#[derive(Debug, Clone, Copy, PartialEq, Eq, Structural, Default)]
pub struct Config {}

impl Config {
    pub fn from(_ci: &ComponentInterface) -> (r: Self)
        ensures
            r == (Config {}),
    {
        Config {}
    }

    /// Merging two configurations: with no options, the result is empty.
    pub fn merge_with(&self, _other: &Self) -> (r: Self)
        ensures
            r == (Config {}),
    {
        Config {}
    }
}

/// What the bindings template renders from.
pub struct CSharpWrapper<'config, 'ci> {
    pub config: &'config Config,
    pub ci: &'ci ComponentInterface,
}

impl<'c, 'a> CSharpWrapper<'c, 'a> {
    pub fn new(config: &'c Config, ci: &'a ComponentInterface) -> (r: Self)
        requires
            ci.wf(),
        ensures
            *r.config == *config,
            *r.ci == *ci,
    {
        CSharpWrapper { config, ci }
    }
}

/// The foreign declaration of each ABI shape.
pub open spec fn type_ffi_spec(t: FFIType) -> Seq<char> {
    match t {
        FFIType::Int8 => "ctypes.c_int8"@,
        FFIType::UInt8 => "ctypes.c_uint8"@,
        FFIType::Int16 => "ctypes.c_int16"@,
        FFIType::UInt16 => "ctypes.c_uint16"@,
        FFIType::Int32 => "ctypes.c_int32"@,
        FFIType::UInt32 => "ctypes.c_uint32"@,
        FFIType::Int64 => "ctypes.c_int64"@,
        FFIType::UInt64 => "ctypes.c_uint64"@,
        FFIType::Float32 => "ctypes.c_float"@,
        FFIType::Float64 => "ctypes.c_double"@,
        FFIType::RustCString => "ctypes.c_voidp"@,
        FFIType::RustBuffer => "RustBuffer"@,
        FFIType::RustError => "RustError"@,
        FFIType::ForeignBytes => "ForeignBytes"@,
        FFIType::ForeignStringRef => "ctypes.c_char_p"@,
        FFIType::Handle => "ctypes.c_size_t"@,
    }
}


/// Distinct ABI shapes never share a declaration.
pub proof fn lemma_type_ffi_injective(a: FFIType, b: FFIType)
    requires
        a != b,
    ensures
        type_ffi_spec(a) != type_ffi_spec(b),
{
    let s = type_ffi_spec(a);
    if s == type_ffi_spec(b) {
        match a {
            FFIType::Int8 => {
                reveal_strlit("ctypes.c_int8");
                assert(s.len() == 13 && s[9] == 'i');
            },
            FFIType::UInt8 => {
                reveal_strlit("ctypes.c_uint8");
                assert(s.len() == 14 && s[9] == 'u' && s[13] == '8');
            },
            FFIType::Int16 => {
                reveal_strlit("ctypes.c_int16");
                assert(s.len() == 14 && s[9] == 'i' && s[13] == '6');
            },
            FFIType::UInt16 => {
                reveal_strlit("ctypes.c_uint16");
                assert(s.len() == 15 && s[9] == 'u' && s[13] == '1');
            },
            FFIType::Int32 => {
                reveal_strlit("ctypes.c_int32");
                assert(s.len() == 14 && s[9] == 'i' && s[13] == '2');
            },
            FFIType::UInt32 => {
                reveal_strlit("ctypes.c_uint32");
                assert(s.len() == 15 && s[9] == 'u' && s[13] == '3');
            },
            FFIType::Int64 => {
                reveal_strlit("ctypes.c_int64");
                assert(s.len() == 14 && s[9] == 'i' && s[13] == '4');
            },
            FFIType::UInt64 => {
                reveal_strlit("ctypes.c_uint64");
                assert(s.len() == 15 && s[9] == 'u' && s[13] == '6');
            },
            FFIType::Float32 => {
                reveal_strlit("ctypes.c_float");
                assert(s.len() == 14 && s[9] == 'f' && s[13] == 't');
            },
            FFIType::Float64 => {
                reveal_strlit("ctypes.c_double");
                assert(s.len() == 15 && s[9] == 'd' && s[13] == 'l');
            },
            FFIType::RustCString => {
                reveal_strlit("ctypes.c_voidp");
                assert(s.len() == 14 && s[9] == 'v' && s[13] == 'p');
            },
            FFIType::RustBuffer => {
                reveal_strlit("RustBuffer");
                assert(s.len() == 10 && s[9] == 'r');
            },
            FFIType::RustError => {
                reveal_strlit("RustError");
                assert(s.len() == 9);
            },
            FFIType::ForeignBytes => {
                reveal_strlit("ForeignBytes");
                assert(s.len() == 12 && s[9] == 't');
            },
            FFIType::ForeignStringRef => {
                reveal_strlit("ctypes.c_char_p");
                assert(s.len() == 15 && s[9] == 'c' && s[13] == '_');
            },
            FFIType::Handle => {
                reveal_strlit("ctypes.c_size_t");
                assert(s.len() == 15 && s[9] == 's' && s[13] == '_');
            },
        }
        match b {
            FFIType::Int8 => {
                reveal_strlit("ctypes.c_int8");
                assert(s.len() == 13 && s[9] == 'i');
            },
            FFIType::UInt8 => {
                reveal_strlit("ctypes.c_uint8");
                assert(s.len() == 14 && s[9] == 'u' && s[13] == '8');
            },
            FFIType::Int16 => {
                reveal_strlit("ctypes.c_int16");
                assert(s.len() == 14 && s[9] == 'i' && s[13] == '6');
            },
            FFIType::UInt16 => {
                reveal_strlit("ctypes.c_uint16");
                assert(s.len() == 15 && s[9] == 'u' && s[13] == '1');
            },
            FFIType::Int32 => {
                reveal_strlit("ctypes.c_int32");
                assert(s.len() == 14 && s[9] == 'i' && s[13] == '2');
            },
            FFIType::UInt32 => {
                reveal_strlit("ctypes.c_uint32");
                assert(s.len() == 15 && s[9] == 'u' && s[13] == '3');
            },
            FFIType::Int64 => {
                reveal_strlit("ctypes.c_int64");
                assert(s.len() == 14 && s[9] == 'i' && s[13] == '4');
            },
            FFIType::UInt64 => {
                reveal_strlit("ctypes.c_uint64");
                assert(s.len() == 15 && s[9] == 'u' && s[13] == '6');
            },
            FFIType::Float32 => {
                reveal_strlit("ctypes.c_float");
                assert(s.len() == 14 && s[9] == 'f' && s[13] == 't');
            },
            FFIType::Float64 => {
                reveal_strlit("ctypes.c_double");
                assert(s.len() == 15 && s[9] == 'd' && s[13] == 'l');
            },
            FFIType::RustCString => {
                reveal_strlit("ctypes.c_voidp");
                assert(s.len() == 14 && s[9] == 'v' && s[13] == 'p');
            },
            FFIType::RustBuffer => {
                reveal_strlit("RustBuffer");
                assert(s.len() == 10 && s[9] == 'r');
            },
            FFIType::RustError => {
                reveal_strlit("RustError");
                assert(s.len() == 9);
            },
            FFIType::ForeignBytes => {
                reveal_strlit("ForeignBytes");
                assert(s.len() == 12 && s[9] == 't');
            },
            FFIType::ForeignStringRef => {
                reveal_strlit("ctypes.c_char_p");
                assert(s.len() == 15 && s[9] == 'c' && s[13] == '_');
            },
            FFIType::Handle => {
                reveal_strlit("ctypes.c_size_t");
                assert(s.len() == 15 && s[9] == 's' && s[13] == '_');
            },
        }
    }
}

pub fn type_ffi(t: &FFIType) -> (r: String)
    ensures
        r@ == type_ffi_spec(*t),
{
    match t {
        FFIType::Int8 => "ctypes.c_int8".to_owned(),
        FFIType::UInt8 => "ctypes.c_uint8".to_owned(),
        FFIType::Int16 => "ctypes.c_int16".to_owned(),
        FFIType::UInt16 => "ctypes.c_uint16".to_owned(),
        FFIType::Int32 => "ctypes.c_int32".to_owned(),
        FFIType::UInt32 => "ctypes.c_uint32".to_owned(),
        FFIType::Int64 => "ctypes.c_int64".to_owned(),
        FFIType::UInt64 => "ctypes.c_uint64".to_owned(),
        FFIType::Float32 => "ctypes.c_float".to_owned(),
        FFIType::Float64 => "ctypes.c_double".to_owned(),
        FFIType::RustCString => "ctypes.c_voidp".to_owned(),
        FFIType::RustBuffer => "RustBuffer".to_owned(),
        FFIType::RustError => "RustError".to_owned(),
        FFIType::ForeignBytes => "ForeignBytes".to_owned(),
        FFIType::ForeignStringRef => "ctypes.c_char_p".to_owned(),
        FFIType::Handle => "ctypes.c_size_t".to_owned(),
    }
}

pub fn class_name_cs(nm: &str) -> (r: String)
    ensures
        r@ == camel_case_of(nm@),
{
    to_camel_case(nm)
}

pub fn fn_name_cs(nm: &str) -> (r: String)
    ensures
        r@ == mixed_case_of(nm@),
{
    to_mixed_case(nm)
}

pub fn var_name_cs(nm: &str) -> (r: String)
    ensures
        r@ == mixed_case_of(nm@),
{
    to_mixed_case(nm)
}

pub fn enum_name_cs(nm: &str) -> (r: String)
    ensures
        r@ == shouty_snake_case_of(nm@),
{
    to_shouty_snake_case(nm)
}

/// The expression that coerces the variable `nm` to type `t`.
pub open spec fn coerce_cs_spec(nm: Seq<char>, t: Type) -> Seq<char>
    decreases t,
{
    match t {
        Type::Enum(n) => nm + " = "@ + n@ + "("@ + nm + ")"@,
        Type::Record(n) => nm + " = "@ + n@ + "._coerce("@ + nm + ")"@,
        Type::Optional(x) => "(None if "@ + nm + " is None else "@ + coerce_cs_spec(nm, *x) + ")"@,
        Type::Sequence(x) => "("@ + coerce_cs_spec("x"@, *x) + " for x in "@ + nm + ")"@,
        Type::StringMap(x) => "("@ + coerce_cs_spec("k"@, *x) + ":"@ + coerce_cs_spec("v"@, *x)
            + " for (k, v) in "@ + nm + ".items())"@,
        _ => nm + " = "@ + nm,
    }
}

pub fn coerce_cs(nm: &str, t: &Type) -> (r: String)
    ensures
        r@ == coerce_cs_spec(nm@, *t),
    decreases t,
{
    match t {
        Type::Enum(n) => {
            let s = concat(&concat(&concat(&concat(nm, " = "), n.as_str()), "("), nm);
            concat(&s, ")")
        },
        Type::Record(n) => {
            let s = concat(&concat(&concat(&concat(nm, " = "), n.as_str()), "._coerce("), nm);
            concat(&s, ")")
        },
        Type::Optional(x) => {
            let inner = coerce_cs(nm, x);
            let s = concat(&concat(&concat("(None if ", nm), " is None else "), &inner);
            concat(&s, ")")
        },
        Type::Sequence(x) => {
            let inner = coerce_cs("x", x);
            let s = concat(&concat(&concat("(", &inner), " for x in "), nm);
            concat(&s, ")")
        },
        Type::StringMap(x) => {
            let k = coerce_cs("k", x);
            let v = coerce_cs("v", x);
            let s = concat(&concat(&concat(&concat("(", &k), ":"), &v), " for (k, v) in ");
            concat(&concat(&s, nm), ".items())")
        },
        _ => concat(&concat(nm, " = "), nm),
    }
}

/// The expression that lowers `nm` into `target`, for the types that have one.
pub open spec fn lower_into_cs_spec(nm: Seq<char>, target: Seq<char>, t: Type) -> Option<Seq<char>> {
    let v = mixed_case_of(nm);
    match t {
        Type::Float64 => Some(target + ".putDouble("@ + v + ")"@),
        Type::UInt32 => Some(target + ".putInt("@ + v + ")"@),
        Type::String => Some(target + ".putString("@ + v + ")"@),
        Type::Record(n) => Some(n@ + "._lowerInto("@ + v + ", "@ + target + ")"@),
        _ => None,
    }
}

pub fn lower_into_cs(nm: &str, target: &str, t: &Type) -> (r: Result<String, EmitError>)
    ensures
        match lower_into_cs_spec(nm@, target@, *t) {
            Some(s) => r matches Ok(x) && x@ == s,
            None => r == Err::<String, EmitError>(EmitError::UnsupportedType),
        },
{
    let v = var_name_cs(nm);
    match t {
        Type::Float64 => Ok(concat(&concat(&concat(target, ".putDouble("), &v), ")")),
        Type::UInt32 => Ok(concat(&concat(&concat(target, ".putInt("), &v), ")")),
        Type::String => Ok(concat(&concat(&concat(target, ".putString("), &v), ")")),
        Type::Record(n) => {
            let s = concat(&concat(&concat(n.as_str(), "._lowerInto("), &v), ", ");
            Ok(concat(&concat(&s, target), ")"))
        },
        _ => Err(EmitError::UnsupportedType),
    }
}

pub open spec fn is_scalar_or_bool(t: Type) -> bool {
    t is Int8 || t is Int16 || t is Int32 || t is Int64 || t is UInt8 || t is UInt16
        || t is UInt32 || t is UInt64 || t is Float32 || t is Float64 || t is Boolean
}

/// The expression that lowers `nm` of type `t`, for the types that have one.
/// An optional lowers through `lower_into_cs` applied to the optional type
/// itself, which has no rendering yet.
pub open spec fn lower_cs_spec(nm: Seq<char>, t: Type) -> Option<Seq<char>> {
    if is_scalar_or_bool(t) {
        Some(nm)
    } else {
        match t {
            Type::Enum(_) => Some(nm + ".value"@),
            Type::String => Some(nm + ".encode('utf-8')"@),
            Type::Record(n) => Some(n@ + "._lower("@ + nm + ")"@),
            Type::Optional(_) => match lower_into_cs_spec("buf"@, "v"@, t) {
                Some(s) => Some("lowerOptional("@ + nm + ", lambda buf, v: "@ + s + ")"@),
                None => None,
            },
            _ => None,
        }
    }
}

pub fn lower_cs(nm: &str, t: &Type) -> (r: Result<String, EmitError>)
    ensures
        match lower_cs_spec(nm@, *t) {
            Some(s) => r matches Ok(x) && x@ == s,
            None => r == Err::<String, EmitError>(EmitError::UnsupportedType),
        },
{
    match t {
        Type::Int8
        | Type::Int16
        | Type::Int32
        | Type::Int64
        | Type::UInt8
        | Type::UInt16
        | Type::UInt32
        | Type::UInt64
        | Type::Float32
        | Type::Float64
        | Type::Boolean => Ok(nm.to_owned()),
        Type::Enum(_) => Ok(concat(nm, ".value")),
        Type::String => Ok(concat(nm, ".encode('utf-8')")),
        Type::Record(n) => Ok(concat(&concat(&concat(n.as_str(), "._lower("), nm), ")")),
        Type::Optional(_) => {
            let inner = lower_into_cs("buf", "v", t)?;
            let s = concat(&concat(&concat("lowerOptional(", nm), ", lambda buf, v: "), &inner);
            Ok(concat(&s, ")"))
        },
        _ => Err(EmitError::UnsupportedType),
    }
}

/// The expression that lifts `nm` from a buffer, for the types that have one.
pub open spec fn lift_from_cs_spec(nm: Seq<char>, t: Type) -> Option<Seq<char>> {
    match t {
        Type::UInt32 => Some(nm + ".getInt()"@),
        Type::Float64 => Some(nm + ".getDouble()"@),
        Type::Record(n) => Some(n@ + "._liftFrom("@ + nm + ")"@),
        Type::String => Some(nm + ".getString()"@),
        _ => None,
    }
}

pub fn lift_from_cs(nm: &str, t: &Type) -> (r: Result<String, EmitError>)
    ensures
        match lift_from_cs_spec(nm@, *t) {
            Some(s) => r matches Ok(x) && x@ == s,
            None => r == Err::<String, EmitError>(EmitError::UnsupportedType),
        },
{
    match t {
        Type::UInt32 => Ok(concat(nm, ".getInt()")),
        Type::Float64 => Ok(concat(nm, ".getDouble()")),
        Type::Record(n) => Ok(concat(&concat(&concat(n.as_str(), "._liftFrom("), nm), ")")),
        Type::String => Ok(concat(nm, ".getString()")),
        _ => Err(EmitError::UnsupportedType),
    }
}

/// The expression that lifts `nm` of type `t`, for the types that have one.
pub open spec fn lift_cs_spec(nm: Seq<char>, t: Type) -> Option<Seq<char>> {
    if is_scalar_or_bool(t) {
        Some(nm)
    } else {
        match t {
            Type::Enum(n) => Some(n@ + "("@ + nm + ")"@),
            Type::String => Some("liftString("@ + nm + ")"@),
            Type::Record(n) => Some(n@ + "._lift("@ + nm + ")"@),
            Type::Optional(x) => match lift_from_cs_spec("buf"@, *x) {
                Some(s) => Some("liftOptional("@ + nm + ", lambda buf: "@ + s + ")"@),
                None => None,
            },
            Type::Sequence(x) => match lift_from_cs_spec("buf"@, *x) {
                Some(s) => Some("liftSequence("@ + nm + ", lambda buf: "@ + s + ")"@),
                None => None,
            },
            _ => None,
        }
    }
}

pub fn lift_cs(nm: &str, t: &Type) -> (r: Result<String, EmitError>)
    ensures
        match lift_cs_spec(nm@, *t) {
            Some(s) => r matches Ok(x) && x@ == s,
            None => r == Err::<String, EmitError>(EmitError::UnsupportedType),
        },
{
    match t {
        Type::Int8
        | Type::Int16
        | Type::Int32
        | Type::Int64
        | Type::UInt8
        | Type::UInt16
        | Type::UInt32
        | Type::UInt64
        | Type::Float32
        | Type::Float64
        | Type::Boolean => Ok(nm.to_owned()),
        Type::Enum(n) => Ok(concat(&concat(&concat(n.as_str(), "("), nm), ")")),
        Type::String => Ok(concat(&concat("liftString(", nm), ")")),
        Type::Record(n) => Ok(concat(&concat(&concat(n.as_str(), "._lift("), nm), ")")),
        Type::Optional(x) => {
            let inner = lift_from_cs("buf", x)?;
            let s = concat(&concat(&concat("liftOptional(", nm), ", lambda buf: "), &inner);
            Ok(concat(&s, ")"))
        },
        Type::Sequence(x) => {
            let inner = lift_from_cs("buf", x)?;
            let s = concat(&concat(&concat("liftSequence(", nm), ", lambda buf: "), &inner);
            Ok(concat(&s, ")"))
        },
        _ => Err(EmitError::UnsupportedType),
    }
}

} // verus!

verus! {

/// Every type that has a lowering expression also has a lifting one.
pub proof fn lemma_lift_cs_covers_lower_cs(nm: Seq<char>, other: Seq<char>, t: Type)
    requires
        lower_cs_spec(nm, t) is Some,
    ensures
        lift_cs_spec(other, t) is Some,
{
}

/// Writing into a buffer and reading from one are supported for the same
/// types, in matching put/get pairs.
pub proof fn lemma_buffer_writers_match_readers(nm: Seq<char>, target: Seq<char>, buf: Seq<char>, t: Type)
    ensures
        (lower_into_cs_spec(nm, target, t) is Some) <==> (lift_from_cs_spec(buf, t) is Some),
{
}

} // verus!
