use uniffi_core_model::csharp::{
    class_name_cs, coerce_cs, enum_name_cs, fn_name_cs, lift_cs, lift_from_cs, lower_cs,
    lower_into_cs, var_name_cs, CSharpWrapper,
};
use uniffi_core_model::gecko::{
    arg_type_cpp, class_name_cpp, class_name_webidl, enum_variant_cpp, enum_variant_webidl,
    field_name_cpp, fn_name_cpp, fn_name_webidl, lift_cpp, lower_cpp, ret_type_cpp, type_cpp,
    type_webidl, var_name_webidl, GeckoWrapper, Header, WebIdl, WebIdlReturnPosition,
};
use uniffi_core_model::interface::{ComponentInterface, FunctionDef};
use uniffi_core_model::names::EmitError;
use uniffi_core_model::types::{FFIType, Type};
use uniffi_core_model::{csharp, gecko};

fn empty_interface() -> ComponentInterface {
    ComponentInterface::assemble("demo".to_string(), vec![], vec![], vec![], vec![], vec![]).unwrap()
}

fn opt(t: Type) -> Type {
    Type::Optional(Box::new(t))
}

fn seq(t: Type) -> Type {
    Type::Sequence(Box::new(t))
}

#[test]
fn case_conversions() {
    assert_eq!(class_name_cs("my_class"), "MyClass");
    assert_eq!(fn_name_cs("do_thing"), "doThing");
    assert_eq!(var_name_cs("some_var"), "someVar");
    assert_eq!(enum_name_cs("redColor"), "RED_COLOR");
    assert_eq!(var_name_webidl("a_b"), "aB");
    assert_eq!(enum_variant_webidl("first_one"), "firstOne");
    assert_eq!(class_name_webidl("thing_holder"), "ThingHolder");
    assert_eq!(class_name_cpp("thing_holder"), "ThingHolder");
    assert_eq!(fn_name_webidl("get_it"), "getIt");
    assert_eq!(fn_name_cpp("get_it"), "GetIt");
    assert_eq!(field_name_cpp("my_field"), "mMyField");
    assert_eq!(enum_variant_cpp("blue_ish"), "BlueIsh");
}

#[test]
fn csharp_ffi_names() {
    assert_eq!(csharp::type_ffi(&FFIType::Int8), "ctypes.c_int8");
    assert_eq!(csharp::type_ffi(&FFIType::Float64), "ctypes.c_double");
    assert_eq!(csharp::type_ffi(&FFIType::RustCString), "ctypes.c_voidp");
    assert_eq!(csharp::type_ffi(&FFIType::RustBuffer), "RustBuffer");
    assert_eq!(csharp::type_ffi(&FFIType::ForeignBytes), "ForeignBytes");
    assert_eq!(csharp::type_ffi(&FFIType::Handle), "ctypes.c_size_t");
    assert_ne!(csharp::type_ffi(&FFIType::Handle), csharp::type_ffi(&FFIType::UInt64));
}

#[test]
fn csharp_coerce() {
    assert_eq!(coerce_cs("n", &Type::Int32), "n = n");
    assert_eq!(coerce_cs("c", &Type::Enum("Color".to_string())), "c = Color(c)");
    assert_eq!(coerce_cs("p", &Type::Record("Point".to_string())), "p = Point._coerce(p)");
    assert_eq!(coerce_cs("o", &opt(Type::String)), "(None if o is None else o = o)");
    assert_eq!(coerce_cs("xs", &seq(Type::UInt8)), "(x = x for x in xs)");
    assert_eq!(
        coerce_cs("m", &Type::StringMap(Box::new(Type::Boolean))),
        "(k = k:v = v for (k, v) in m.items())"
    );
}

#[test]
fn csharp_lower_and_lift() {
    assert_eq!(lower_cs("n", &Type::UInt8), Ok("n".to_string()));
    assert_eq!(lower_cs("c", &Type::Enum("Color".to_string())), Ok("c.value".to_string()));
    assert_eq!(lower_cs("s", &Type::String), Ok("s.encode('utf-8')".to_string()));
    assert_eq!(lower_cs("p", &Type::Record("Point".to_string())), Ok("Point._lower(p)".to_string()));
    assert_eq!(lower_cs("o", &opt(Type::String)), Err(EmitError::UnsupportedType));
    assert_eq!(lower_cs("xs", &seq(Type::String)), Err(EmitError::UnsupportedType));
    assert_eq!(lower_into_cs("my_val", "buf", &Type::Float64), Ok("buf.putDouble(myVal)".to_string()));
    assert_eq!(
        lower_into_cs("v", "buf", &Type::Record("Point".to_string())),
        Ok("Point._lowerInto(v, buf)".to_string())
    );
    assert_eq!(lower_into_cs("v", "buf", &Type::Int8), Err(EmitError::UnsupportedType));
    assert_eq!(lift_cs("n", &Type::Float32), Ok("n".to_string()));
    assert_eq!(lift_cs("c", &Type::Enum("Color".to_string())), Ok("Color(c)".to_string()));
    assert_eq!(lift_cs("s", &Type::String), Ok("liftString(s)".to_string()));
    assert_eq!(
        lift_cs("o", &opt(Type::UInt32)),
        Ok("liftOptional(o, lambda buf: buf.getInt())".to_string())
    );
    assert_eq!(
        lift_cs("xs", &seq(Type::Record("Point".to_string()))),
        Ok("liftSequence(xs, lambda buf: Point._liftFrom(buf))".to_string())
    );
    assert_eq!(lift_cs("o", &opt(Type::Int8)), Err(EmitError::UnsupportedType));
    assert_eq!(lift_from_cs("b", &Type::String), Ok("b.getString()".to_string()));
    assert_eq!(lift_from_cs("b", &Type::Boolean), Err(EmitError::UnsupportedType));
}

#[test]
fn webidl_and_cpp_types() {
    assert_eq!(type_webidl(&Type::UInt16), Ok("unsigned short".to_string()));
    assert_eq!(type_webidl(&opt(seq(Type::Int64))), Ok("sequence<long long>?".to_string()));
    assert_eq!(type_webidl(&Type::Record("point_2d".to_string())), Ok("Point2d".to_string()));
    assert_eq!(type_webidl(&Type::Error("E".to_string())), Err(EmitError::UnsupportedType));
    assert_eq!(type_cpp(&seq(opt(Type::Boolean))), Ok("nsTArray<Nullable<bool>>".to_string()));
    assert_eq!(type_cpp(&Type::Object("counter".to_string())), Ok("RefPtr<Counter>".to_string()));
    assert_eq!(arg_type_cpp(&Type::String), Ok("const nsAString&".to_string()));
    assert_eq!(arg_type_cpp(&Type::Enum("color".to_string())), Ok("color".to_string()));
    assert_eq!(arg_type_cpp(&Type::Record("point".to_string())), Ok("const Point&".to_string()));
    assert_eq!(arg_type_cpp(&seq(Type::UInt8)), Ok("const Sequence<uint8_t>&".to_string()));
    assert_eq!(arg_type_cpp(&Type::Float32), Ok("float".to_string()));
    assert_eq!(ret_type_cpp(&Type::String), Ok("nsAString&".to_string()));
    assert_eq!(
        ret_type_cpp(&Type::Object("counter".to_string())),
        Ok("already_AddRefed<Counter>".to_string())
    );
    assert_eq!(ret_type_cpp(&opt(Type::Int32)), Ok("Nullable<int32_t>&".to_string()));
    assert_eq!(ret_type_cpp(&Type::Error("E".to_string())), Err(EmitError::UnsupportedType));
    assert_eq!(gecko::type_ffi(&FFIType::RustError), "NativeRustError");
    assert_eq!(gecko::type_ffi(&FFIType::ForeignStringRef), "const char*");
    assert_eq!(gecko::type_ffi(&FFIType::Handle), "uintptr_t");
    assert_ne!(gecko::type_ffi(&FFIType::Handle), gecko::type_ffi(&FFIType::UInt64));
}

#[test]
fn cpp_via_ffi() {
    assert_eq!(
        lift_cpp("aValue", &Type::Int32),
        Ok("detail::ViaFfi<int32_t, int32_t>::Lift(aValue)".to_string())
    );
    assert_eq!(
        lower_cpp("aValue", &Type::String),
        Ok("detail::ViaFfi<nsString, RustBuffer>::Lower(aValue)".to_string())
    );
    assert_eq!(
        lower_cpp("flag", &Type::Boolean),
        Ok("detail::ViaFfi<bool, uint8_t>::Lower(flag)".to_string())
    );
    assert_eq!(lift_cpp("x", &Type::StringMap(Box::new(Type::Int8))), Err(EmitError::UnsupportedType));
}

#[test]
fn gecko_return_positions_and_defaults() {
    let ci = empty_interface();
    let config = gecko::Config::from(&ci);
    let w = GeckoWrapper::new(&config, &ci);
    let _h = Header::new(&config, &ci);
    let _i = WebIdl::new(&config, &ci);
    let f = |t: Option<Type>| FunctionDef { name: "f".to_string(), arguments: vec![], return_type: t };
    let s = f(Some(Type::String));
    assert!(w.ret_position_cpp(&s).is_out_param());
    let n = f(Some(Type::Int32));
    match w.ret_position_cpp(&n) {
        WebIdlReturnPosition::Return(t) => assert_eq!(*t, Type::Int32),
        _ => panic!("expected a direct return"),
    }
    let v = f(None);
    assert!(matches!(w.ret_position_cpp(&v), WebIdlReturnPosition::Void));
    assert_eq!(w.ret_default_value_cpp(&n), Ok(Some("0".to_string())));
    assert_eq!(w.ret_default_value_cpp(&f(Some(Type::Float32))), Ok(Some("0.0f".to_string())));
    assert_eq!(w.ret_default_value_cpp(&f(Some(Type::Boolean))), Ok(Some("false".to_string())));
    assert_eq!(
        w.ret_default_value_cpp(&f(Some(Type::Object("o".to_string())))),
        Ok(Some("nullptr".to_string()))
    );
    assert_eq!(w.ret_default_value_cpp(&s), Ok(None));
    assert_eq!(w.ret_default_value_cpp(&v), Ok(None));
    assert_eq!(
        w.ret_default_value_cpp(&f(Some(Type::Enum("e".to_string())))),
        Err(EmitError::UnsupportedType)
    );
}

#[test]
fn csharp_wrapper_holds_its_inputs() {
    let ci = empty_interface();
    let config = csharp::Config::from(&ci);
    let w = CSharpWrapper::new(&config, &ci);
    assert_eq!(w.ci.namespace(), "demo");
    assert_eq!(config.merge_with(&config), csharp::Config {});
}
