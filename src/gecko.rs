use vstd::prelude::*;
use crate::types::{Type, FFIType, classify, classify_spec};
use crate::interface::{ComponentInterface, FunctionDef};
use crate::names::{camel_case_of, mixed_case_of, to_camel_case, to_mixed_case, concat, EmitError};

verus! {

/// Options for the generated bindings that leave the component itself as
/// it is. There are none yet.
#[derive(Debug, Clone, Copy, PartialEq, Eq, Structural, Default)]
pub struct Config {}

impl Config {
    pub fn from(_ci: &ComponentInterface) -> (r: Self)
        ensures
            r == (Config {}),
    {
        Config {}
    }
}

/// What the C++ header template renders from.
pub struct Header<'config, 'ci> {
    pub config: &'config Config,
    pub ci: &'ci ComponentInterface,
}

impl<'config, 'ci> Header<'config, 'ci> {
    pub fn new(config: &'config Config, ci: &'ci ComponentInterface) -> (r: Self)
        requires
            ci.wf(),
        ensures
            *r.config == *config,
            *r.ci == *ci,
    {
        Header { config, ci }
    }
}

/// What the WebIDL template renders from.
pub struct WebIdl<'config, 'ci> {
    pub config: &'config Config,
    pub ci: &'ci ComponentInterface,
}

impl<'config, 'ci> WebIdl<'config, 'ci> {
    pub fn new(config: &'config Config, ci: &'ci ComponentInterface) -> (r: Self)
        requires
            ci.wf(),
        ensures
            *r.config == *config,
            *r.ci == *ci,
    {
        WebIdl { config, ci }
    }
}

/// How a WebIDL return value is reflected in C++.
pub enum WebIdlReturnPosition<'a> {
    /// Written through an out parameter.
    OutParam(&'a Type),
    /// Returned directly.
    Return(&'a Type),
    /// Nothing is returned.
    Void,
}

impl<'a> WebIdlReturnPosition<'a> {
    pub fn is_out_param(&self) -> (r: bool)
        ensures
            r == (*self is OutParam),
    {
        match self {
            WebIdlReturnPosition::OutParam(_) => true,
            _ => false,
        }
    }
}

/// What the C++ wrapper template renders from.
pub struct GeckoWrapper<'config, 'ci> {
    pub config: &'config Config,
    pub ci: &'ci ComponentInterface,
}

/// Strings, optionals, records and sequences come back through an out
/// parameter.
pub open spec fn returned_by_out_param(t: Type) -> bool {
    t is String || t is Optional || t is Record || t is Sequence
}

/// The default that a throwing function returns, by return type; `None`
/// where the value comes back through an out parameter.
pub open spec fn ret_default_spec(t: Type) -> Option<Seq<char>> {
    match t {
        Type::Int8 | Type::UInt8 | Type::Int16 | Type::UInt16 | Type::Int32 | Type::UInt32
        | Type::Int64 | Type::UInt64 => Some("0"@),
        Type::Float32 => Some("0.0f"@),
        Type::Float64 => Some("0.0"@),
        Type::Boolean => Some("false"@),
        Type::Object(_) => Some("nullptr"@),
        _ => None,
    }
}

impl<'config, 'ci> GeckoWrapper<'config, 'ci> {
    pub fn new(config: &'config Config, ci: &'ci ComponentInterface) -> (r: Self)
        requires
            ci.wf(),
        ensures
            *r.config == *config,
            *r.ci == *ci,
    {
        GeckoWrapper { config, ci }
    }

    /// Whether the function's return value is an out parameter, a direct
    /// return, or absent.
    pub fn ret_position_cpp(&self, func: &'ci FunctionDef) -> (r: WebIdlReturnPosition<'ci>)
        ensures
            match func.return_type {
                None => r is Void,
                Some(t) => if returned_by_out_param(t) {
                    r matches WebIdlReturnPosition::OutParam(x) && *x == t
                } else {
                    r matches WebIdlReturnPosition::Return(x) && *x == t
                },
            },
    {
        match &func.return_type {
            None => WebIdlReturnPosition::Void,
            Some(t) => match t {
                Type::String | Type::Optional(_) | Type::Record(_) | Type::Sequence(_) => {
                    WebIdlReturnPosition::OutParam(t)
                },
                _ => WebIdlReturnPosition::Return(t),
            },
        }
    }

    /// The value returned when the function throws. Enums, errors and maps
    /// have no default yet.
    pub fn ret_default_value_cpp(&self, func: &FunctionDef) -> (r: Result<Option<String>, EmitError>)
        ensures
            match func.return_type {
                None => r matches Ok(None),
                Some(t) => if t is Enum || t is Error || t is StringMap {
                    r == Err::<Option<String>, EmitError>(EmitError::UnsupportedType)
                } else {
                    match ret_default_spec(t) {
                        Some(s) => r matches Ok(Some(x)) && x@ == s,
                        None => r matches Ok(None),
                    }
                },
            },
    {
        match &func.return_type {
            None => Ok(None),
            Some(t) => match t {
                Type::Int8
                | Type::UInt8
                | Type::Int16
                | Type::UInt16
                | Type::Int32
                | Type::UInt32
                | Type::Int64
                | Type::UInt64 => Ok(Some("0".to_owned())),
                Type::Float32 => Ok(Some("0.0f".to_owned())),
                Type::Float64 => Ok(Some("0.0".to_owned())),
                Type::Boolean => Ok(Some("false".to_owned())),
                Type::Object(_) => Ok(Some("nullptr".to_owned())),
                Type::String | Type::Record(_) | Type::Optional(_) | Type::Sequence(_) => Ok(None),
                Type::Enum(_) | Type::Error(_) | Type::StringMap(_) => Err(
                    EmitError::UnsupportedType,
                ),
            },
        }
    }
}

pub fn var_name_webidl(nm: &str) -> (r: String)
    ensures
        r@ == mixed_case_of(nm@),
{
    to_mixed_case(nm)
}

pub fn enum_variant_webidl(nm: &str) -> (r: String)
    ensures
        r@ == mixed_case_of(nm@),
{
    to_mixed_case(nm)
}

pub fn class_name_webidl(nm: &str) -> (r: String)
    ensures
        r@ == camel_case_of(nm@),
{
    to_camel_case(nm)
}

pub fn class_name_cpp(nm: &str) -> (r: String)
    ensures
        r@ == camel_case_of(nm@),
{
    to_camel_case(nm)
}

pub fn fn_name_webidl(nm: &str) -> (r: String)
    ensures
        r@ == mixed_case_of(nm@),
{
    to_mixed_case(nm)
}

/// Functions and methods are UpperCamelCase in C++, though mixedCamelCase
/// in WebIDL.
pub fn fn_name_cpp(nm: &str) -> (r: String)
    ensures
        r@ == camel_case_of(nm@),
{
    to_camel_case(nm)
}

pub fn field_name_cpp(nm: &str) -> (r: String)
    ensures
        r@ == "m"@ + camel_case_of(nm@),
{
    concat("m", &to_camel_case(nm))
}

pub fn enum_variant_cpp(nm: &str) -> (r: String)
    ensures
        r@ == camel_case_of(nm@),
{
    to_camel_case(nm)
}

/// The WebIDL declaration of a type; errors and maps have none yet.
pub open spec fn type_webidl_spec(t: Type) -> Option<Seq<char>>
    decreases t,
{
    match t {
        Type::Int8 => Some("byte"@),
        Type::UInt8 => Some("octet"@),
        Type::Int16 => Some("short"@),
        Type::UInt16 => Some("unsigned short"@),
        Type::Int32 => Some("long"@),
        Type::UInt32 => Some("unsigned long"@),
        Type::Int64 => Some("long long"@),
        Type::UInt64 => Some("unsigned long long"@),
        Type::Float32 => Some("float"@),
        Type::Float64 => Some("double"@),
        Type::Boolean => Some("boolean"@),
        Type::String => Some("DOMString"@),
        Type::Enum(n) => Some(camel_case_of(n@)),
        Type::Record(n) => Some(camel_case_of(n@)),
        Type::Object(n) => Some(camel_case_of(n@)),
        Type::Optional(x) => match type_webidl_spec(*x) {
            Some(s) => Some(s + "?"@),
            None => None,
        },
        Type::Sequence(x) => match type_webidl_spec(*x) {
            Some(s) => Some("sequence<"@ + s + ">"@),
            None => None,
        },
        _ => None,
    }
}

pub fn type_webidl(t: &Type) -> (r: Result<String, EmitError>)
    ensures
        match type_webidl_spec(*t) {
            Some(s) => r matches Ok(x) && x@ == s,
            None => r == Err::<String, EmitError>(EmitError::UnsupportedType),
        },
    decreases t,
{
    match t {
        Type::Int8 => Ok("byte".to_owned()),
        Type::UInt8 => Ok("octet".to_owned()),
        Type::Int16 => Ok("short".to_owned()),
        Type::UInt16 => Ok("unsigned short".to_owned()),
        Type::Int32 => Ok("long".to_owned()),
        Type::UInt32 => Ok("unsigned long".to_owned()),
        Type::Int64 => Ok("long long".to_owned()),
        Type::UInt64 => Ok("unsigned long long".to_owned()),
        Type::Float32 => Ok("float".to_owned()),
        // Not `unrestricted double`: NaNs and infinities are not allowed.
        Type::Float64 => Ok("double".to_owned()),
        Type::Boolean => Ok("boolean".to_owned()),
        Type::String => Ok("DOMString".to_owned()),
        Type::Enum(n) | Type::Record(n) | Type::Object(n) => Ok(class_name_webidl(n.as_str())),
        Type::Optional(x) => {
            let s = type_webidl(x)?;
            Ok(concat(&s, "?"))
        },
        Type::Sequence(x) => {
            let s = type_webidl(x)?;
            Ok(concat(&concat("sequence<", &s), ">"))
        },
        _ => Err(EmitError::UnsupportedType),
    }
}

/// The C declaration of each ABI shape.
pub open spec fn type_ffi_spec(t: FFIType) -> Seq<char> {
    match t {
        FFIType::Int8 => "int8_t"@,
        FFIType::UInt8 => "uint8_t"@,
        FFIType::Int16 => "int16_t"@,
        FFIType::UInt16 => "uint16_t"@,
        FFIType::Int32 => "int32_t"@,
        FFIType::UInt32 => "uint32_t"@,
        FFIType::Int64 => "int64_t"@,
        FFIType::UInt64 => "uint64_t"@,
        FFIType::Float32 => "float"@,
        FFIType::Float64 => "double"@,
        FFIType::RustBuffer => "RustBuffer"@,
        FFIType::RustCString => "char*"@,
        FFIType::RustError => "NativeRustError"@,
        FFIType::ForeignStringRef => "const char*"@,
        FFIType::ForeignBytes => "ForeignBytes"@,
        FFIType::Handle => "uintptr_t"@,
    }
}


/// Distinct ABI shapes never share a declaration.
pub proof fn lemma_type_ffi_injective(a: FFIType, b: FFIType)
    requires
        a != b,
    ensures
        type_ffi_spec(a) != type_ffi_spec(b),
{
    let s = type_ffi_spec(a);
    if s == type_ffi_spec(b) {
        match a {
            FFIType::Int8 => {
                reveal_strlit("int8_t");
                assert(s.len() == 6 && s[4] == '_');
            },
            FFIType::UInt8 => {
                reveal_strlit("uint8_t");
                assert(s.len() == 7 && s[4] == '8');
            },
            FFIType::Int16 => {
                reveal_strlit("int16_t");
                assert(s.len() == 7 && s[4] == '6');
            },
            FFIType::UInt16 => {
                reveal_strlit("uint16_t");
                assert(s.len() == 8 && s[4] == '1');
            },
            FFIType::Int32 => {
                reveal_strlit("int32_t");
                assert(s.len() == 7 && s[4] == '2');
            },
            FFIType::UInt32 => {
                reveal_strlit("uint32_t");
                assert(s.len() == 8 && s[4] == '3');
            },
            FFIType::Int64 => {
                reveal_strlit("int64_t");
                assert(s.len() == 7 && s[4] == '4');
            },
            FFIType::UInt64 => {
                reveal_strlit("uint64_t");
                assert(s.len() == 8 && s[4] == '6');
            },
            FFIType::Float32 => {
                reveal_strlit("float");
                assert(s.len() == 5 && s[4] == 't');
            },
            FFIType::Float64 => {
                reveal_strlit("double");
                assert(s.len() == 6 && s[4] == 'l');
            },
            FFIType::RustBuffer => {
                reveal_strlit("RustBuffer");
                assert(s.len() == 10 && s[4] == 'B');
            },
            FFIType::RustCString => {
                reveal_strlit("char*");
                assert(s.len() == 5 && s[4] == '*');
            },
            FFIType::RustError => {
                reveal_strlit("NativeRustError");
                assert(s.len() == 15 && s[4] == 'v');
            },
            FFIType::ForeignStringRef => {
                reveal_strlit("const char*");
                assert(s.len() == 11 && s[4] == 't');
            },
            FFIType::ForeignBytes => {
                reveal_strlit("ForeignBytes");
                assert(s.len() == 12 && s[4] == 'i');
            },
            FFIType::Handle => {
                reveal_strlit("uintptr_t");
                assert(s.len() == 9 && s[4] == 'p');
            },
        }
        match b {
            FFIType::Int8 => {
                reveal_strlit("int8_t");
                assert(s.len() == 6 && s[4] == '_');
            },
            FFIType::UInt8 => {
                reveal_strlit("uint8_t");
                assert(s.len() == 7 && s[4] == '8');
            },
            FFIType::Int16 => {
                reveal_strlit("int16_t");
                assert(s.len() == 7 && s[4] == '6');
            },
            FFIType::UInt16 => {
                reveal_strlit("uint16_t");
                assert(s.len() == 8 && s[4] == '1');
            },
            FFIType::Int32 => {
                reveal_strlit("int32_t");
                assert(s.len() == 7 && s[4] == '2');
            },
            FFIType::UInt32 => {
                reveal_strlit("uint32_t");
                assert(s.len() == 8 && s[4] == '3');
            },
            FFIType::Int64 => {
                reveal_strlit("int64_t");
                assert(s.len() == 7 && s[4] == '4');
            },
            FFIType::UInt64 => {
                reveal_strlit("uint64_t");
                assert(s.len() == 8 && s[4] == '6');
            },
            FFIType::Float32 => {
                reveal_strlit("float");
                assert(s.len() == 5 && s[4] == 't');
            },
            FFIType::Float64 => {
                reveal_strlit("double");
                assert(s.len() == 6 && s[4] == 'l');
            },
            FFIType::RustBuffer => {
                reveal_strlit("RustBuffer");
                assert(s.len() == 10 && s[4] == 'B');
            },
            FFIType::RustCString => {
                reveal_strlit("char*");
                assert(s.len() == 5 && s[4] == '*');
            },
            FFIType::RustError => {
                reveal_strlit("NativeRustError");
                assert(s.len() == 15 && s[4] == 'v');
            },
            FFIType::ForeignStringRef => {
                reveal_strlit("const char*");
                assert(s.len() == 11 && s[4] == 't');
            },
            FFIType::ForeignBytes => {
                reveal_strlit("ForeignBytes");
                assert(s.len() == 12 && s[4] == 'i');
            },
            FFIType::Handle => {
                reveal_strlit("uintptr_t");
                assert(s.len() == 9 && s[4] == 'p');
            },
        }
    }
}

pub fn type_ffi(t: &FFIType) -> (r: String)
    ensures
        r@ == type_ffi_spec(*t),
{
    match t {
        FFIType::Int8 => "int8_t".to_owned(),
        FFIType::UInt8 => "uint8_t".to_owned(),
        FFIType::Int16 => "int16_t".to_owned(),
        FFIType::UInt16 => "uint16_t".to_owned(),
        FFIType::Int32 => "int32_t".to_owned(),
        FFIType::UInt32 => "uint32_t".to_owned(),
        FFIType::Int64 => "int64_t".to_owned(),
        FFIType::UInt64 => "uint64_t".to_owned(),
        FFIType::Float32 => "float".to_owned(),
        FFIType::Float64 => "double".to_owned(),
        FFIType::RustBuffer => "RustBuffer".to_owned(),
        FFIType::RustCString => "char*".to_owned(),
        FFIType::RustError => "NativeRustError".to_owned(),
        FFIType::ForeignStringRef => "const char*".to_owned(),
        FFIType::ForeignBytes => "ForeignBytes".to_owned(),
        FFIType::Handle => "uintptr_t".to_owned(),
    }
}

/// The C++ type that holds a value of type `t`; errors and maps have none yet.
pub open spec fn type_cpp_spec(t: Type) -> Option<Seq<char>>
    decreases t,
{
    match t {
        Type::Int8 => Some("int8_t"@),
        Type::UInt8 => Some("uint8_t"@),
        Type::Int16 => Some("int16_t"@),
        Type::UInt16 => Some("uint16_t"@),
        Type::Int32 => Some("int32_t"@),
        Type::UInt32 => Some("uint32_t"@),
        Type::Int64 => Some("int64_t"@),
        Type::UInt64 => Some("uint64_t"@),
        Type::Float32 => Some("float"@),
        Type::Float64 => Some("double"@),
        Type::Boolean => Some("bool"@),
        Type::String => Some("nsString"@),
        Type::Enum(n) => Some(camel_case_of(n@)),
        Type::Record(n) => Some(camel_case_of(n@)),
        Type::Object(n) => Some("RefPtr<"@ + camel_case_of(n@) + ">"@),
        Type::Optional(x) => match type_cpp_spec(*x) {
            Some(s) => Some("Nullable<"@ + s + ">"@),
            None => None,
        },
        Type::Sequence(x) => match type_cpp_spec(*x) {
            Some(s) => Some("nsTArray<"@ + s + ">"@),
            None => None,
        },
        _ => None,
    }
}

pub fn type_cpp(t: &Type) -> (r: Result<String, EmitError>)
    ensures
        match type_cpp_spec(*t) {
            Some(s) => r matches Ok(x) && x@ == s,
            None => r == Err::<String, EmitError>(EmitError::UnsupportedType),
        },
    decreases t,
{
    match t {
        Type::Int8 => Ok("int8_t".to_owned()),
        Type::UInt8 => Ok("uint8_t".to_owned()),
        Type::Int16 => Ok("int16_t".to_owned()),
        Type::UInt16 => Ok("uint16_t".to_owned()),
        Type::Int32 => Ok("int32_t".to_owned()),
        Type::UInt32 => Ok("uint32_t".to_owned()),
        Type::Int64 => Ok("int64_t".to_owned()),
        Type::UInt64 => Ok("uint64_t".to_owned()),
        Type::Float32 => Ok("float".to_owned()),
        Type::Float64 => Ok("double".to_owned()),
        Type::Boolean => Ok("bool".to_owned()),
        Type::String => Ok("nsString".to_owned()),
        Type::Enum(n) | Type::Record(n) => Ok(class_name_cpp(n.as_str())),
        Type::Object(n) => Ok(concat(&concat("RefPtr<", &class_name_cpp(n.as_str())), ">")),
        Type::Optional(x) => {
            let s = type_cpp(x)?;
            Ok(concat(&concat("Nullable<", &s), ">"))
        },
        Type::Sequence(x) => {
            let s = type_cpp(x)?;
            Ok(concat(&concat("nsTArray<", &s), ">"))
        },
        _ => Err(EmitError::UnsupportedType),
    }
}

/// The C++ type of an argument of type `t`.
pub open spec fn arg_type_cpp_spec(t: Type) -> Option<Seq<char>> {
    match t {
        Type::String => Some("const nsAString&"@),
        Type::Enum(n) => Some(n@),
        Type::Record(n) => Some("const "@ + camel_case_of(n@) + "&"@),
        Type::Object(n) => Some("const "@ + camel_case_of(n@) + "&"@),
        Type::Optional(x) => match type_cpp_spec(*x) {
            Some(s) => Some("const Nullable<"@ + s + ">&"@),
            None => None,
        },
        Type::Sequence(x) => match type_cpp_spec(*x) {
            Some(s) => Some("const Sequence<"@ + s + ">&"@),
            None => None,
        },
        Type::Error(_) | Type::StringMap(_) => None,
        _ => type_cpp_spec(t),
    }
}

pub fn arg_type_cpp(t: &Type) -> (r: Result<String, EmitError>)
    ensures
        match arg_type_cpp_spec(*t) {
            Some(s) => r matches Ok(x) && x@ == s,
            None => r == Err::<String, EmitError>(EmitError::UnsupportedType),
        },
{
    match t {
        Type::Int8
        | Type::UInt8
        | Type::Int16
        | Type::UInt16
        | Type::Int32
        | Type::UInt32
        | Type::Int64
        | Type::UInt64
        | Type::Float32
        | Type::Float64
        | Type::Boolean => type_cpp(t),
        Type::String => Ok("const nsAString&".to_owned()),
        Type::Enum(n) => Ok(n.clone()),
        Type::Record(n) | Type::Object(n) => Ok(
            concat(&concat("const ", &class_name_cpp(n.as_str())), "&"),
        ),
        // Nullable objects might be better passed as pointers.
        Type::Optional(x) => {
            let s = type_cpp(x)?;
            Ok(concat(&concat("const Nullable<", &s), ">&"))
        },
        Type::Sequence(x) => {
            let s = type_cpp(x)?;
            Ok(concat(&concat("const Sequence<", &s), ">&"))
        },
        Type::Error(_) | Type::StringMap(_) => Err(EmitError::UnsupportedType),
    }
}

/// The C++ type of a return value of type `t`.
pub open spec fn ret_type_cpp_spec(t: Type) -> Option<Seq<char>> {
    match t {
        Type::String => Some("nsAString&"@),
        Type::Object(n) => Some("already_AddRefed<"@ + camel_case_of(n@) + ">"@),
        Type::Record(_) | Type::Optional(_) | Type::Sequence(_) => match type_cpp_spec(t) {
            Some(s) => Some(s + "&"@),
            None => None,
        },
        Type::Error(_) | Type::StringMap(_) => None,
        _ => type_cpp_spec(t),
    }
}

pub fn ret_type_cpp(t: &Type) -> (r: Result<String, EmitError>)
    ensures
        match ret_type_cpp_spec(*t) {
            Some(s) => r matches Ok(x) && x@ == s,
            None => r == Err::<String, EmitError>(EmitError::UnsupportedType),
        },
{
    match t {
        Type::Int8
        | Type::UInt8
        | Type::Int16
        | Type::UInt16
        | Type::Int32
        | Type::UInt32
        | Type::Int64
        | Type::UInt64
        | Type::Float32
        | Type::Float64
        | Type::Boolean
        | Type::Enum(_) => type_cpp(t),
        Type::String => Ok("nsAString&".to_owned()),
        Type::Object(n) => Ok(
            concat(&concat("already_AddRefed<", &class_name_cpp(n.as_str())), ">"),
        ),
        Type::Record(_) | Type::Optional(_) | Type::Sequence(_) => {
            let s = type_cpp(t)?;
            Ok(concat(&s, "&"))
        },
        Type::Error(_) | Type::StringMap(_) => Err(EmitError::UnsupportedType),
    }
}

/// The C++ expression that converts `name` across the boundary, through
/// the ABI shape of `t`, in the direction `op` (`Lift` or `Lower`).
pub open spec fn via_ffi_spec(name: Seq<char>, t: Type, op: Seq<char>) -> Option<Seq<char>> {
    match type_cpp_spec(t) {
        Some(c) => Some(
            "detail::ViaFfi<"@ + c + ", "@ + type_ffi_spec(classify_spec(t)) + ">::"@ + op + "("@
                + name + ")"@,
        ),
        None => None,
    }
}

pub fn lift_cpp(name: &str, t: &Type) -> (r: Result<String, EmitError>)
    ensures
        match via_ffi_spec(name@, *t, "Lift"@) {
            Some(s) => r matches Ok(x) && x@ == s,
            None => r == Err::<String, EmitError>(EmitError::UnsupportedType),
        },
{
    let ffi_type = classify(t);
    let c = type_cpp(t)?;
    let s = concat(&concat(&concat("detail::ViaFfi<", &c), ", "), &type_ffi(&ffi_type));
    let s = concat(&concat(&concat(&s, ">::"), "Lift"), "(");
    Ok(concat(&concat(&s, name), ")"))
}

pub fn lower_cpp(name: &str, t: &Type) -> (r: Result<String, EmitError>)
    ensures
        match via_ffi_spec(name@, *t, "Lower"@) {
            Some(s) => r matches Ok(x) && x@ == s,
            None => r == Err::<String, EmitError>(EmitError::UnsupportedType),
        },
{
    let ffi_type = classify(t);
    let c = type_cpp(t)?;
    let s = concat(&concat(&concat("detail::ViaFfi<", &c), ", "), &type_ffi(&ffi_type));
    let s = concat(&concat(&concat(&s, ">::"), "Lower"), "(");
    Ok(concat(&concat(&s, name), ")"))
}

} // verus!
