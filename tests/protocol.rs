use uniffi_core_model::interface::{
    AssemblyError, ComponentInterface, EnumDef, ErrorDef, Field, FunctionDef, ObjectDef,
    RecordDef, Variant,
};
use uniffi_core_model::lift::lift;
use uniffi_core_model::lower::{lower, CodecError};
use uniffi_core_model::outcome::{lift_outcome, lower_outcome, CallOutcome, CallStatus};
use uniffi_core_model::types::{classify, FFIType, Type};
use uniffi_core_model::value::Value;

fn field(name: &str, t: Type) -> Field {
    Field { name: name.to_string(), type_: t }
}

fn unit_variant(name: &str) -> Variant {
    Variant { name: name.to_string(), fields: vec![] }
}

fn sample_interface() -> ComponentInterface {
    let point = RecordDef {
        name: "Point".to_string(),
        fields: vec![field("x", Type::Int32), field("label", Type::String)],
    };
    let color = EnumDef {
        name: "Color".to_string(),
        variants: vec![unit_variant("Red"), unit_variant("Green"), unit_variant("Blue")],
    };
    let failure = ErrorDef {
        name: "Failure".to_string(),
        variants: vec![
            unit_variant("Timeout"),
            Variant { name: "Io".to_string(), fields: vec![field("reason", Type::String)] },
        ],
    };
    let counter = ObjectDef {
        name: "Counter".to_string(),
        methods: vec![FunctionDef {
            name: "count".to_string(),
            arguments: vec![],
            return_type: Some(Type::UInt64),
        }],
    };
    ComponentInterface::assemble(
        "sample".to_string(),
        vec![point],
        vec![color],
        vec![failure],
        vec![counter],
        vec![],
    )
    .unwrap()
}

fn point(x: i32, label: &str) -> Value {
    Value::Record(vec![Value::Int32(x), Value::String(label.to_string())])
}

fn round_trip(v: Value, t: &Type) {
    let ci = sample_interface();
    let bytes = lower(&v, t, &ci).unwrap();
    assert_eq!(lift(&bytes, t, &ci), Ok(v));
}

#[test]
fn optional_string_some_and_none_bytes() {
    let ci = sample_interface();
    let t = Type::Optional(Box::new(Type::String));
    let some = Value::Optional(Some(Box::new(Value::String("hi".to_string()))));
    assert_eq!(lower(&some, &t, &ci), Ok(vec![1, 2, 0, 0, 0, 0x68, 0x69]));
    let none = Value::Optional(None);
    assert_eq!(lower(&none, &t, &ci), Ok(vec![0]));
}

#[test]
fn enum_second_variant_is_index_one() {
    let ci = sample_interface();
    let t = Type::Enum("Color".to_string());
    assert_eq!(lower(&Value::Enum(1, vec![]), &t, &ci), Ok(vec![1, 0, 0, 0]));
}

#[test]
fn record_with_undeclared_object_field_fails_assembly() {
    let rec = RecordDef {
        name: "Holder".to_string(),
        fields: vec![field("inner", Type::Object("Missing".to_string()))],
    };
    let r = ComponentInterface::assemble("ns".to_string(), vec![rec], vec![], vec![], vec![], vec![]);
    assert_eq!(
        r.unwrap_err(),
        AssemblyError::UnresolvedReference("Holder".to_string(), "inner".to_string())
    );
}

#[test]
fn duplicate_names_across_kinds_fail_assembly() {
    let rec = RecordDef { name: "Thing".to_string(), fields: vec![] };
    let en = EnumDef { name: "Thing".to_string(), variants: vec![unit_variant("A")] };
    let r = ComponentInterface::assemble("ns".to_string(), vec![rec], vec![en], vec![], vec![], vec![]);
    assert_eq!(r.unwrap_err(), AssemblyError::DuplicateDefinition("Thing".to_string()));
}

#[test]
fn namespace_must_be_identifier() {
    for ns in ["", "1abc", "with space", "dash-ed"] {
        let r = ComponentInterface::assemble(ns.to_string(), vec![], vec![], vec![], vec![], vec![]);
        assert_eq!(r.unwrap_err(), AssemblyError::InvalidNamespace);
    }
    let ok = ComponentInterface::assemble("_ok9".to_string(), vec![], vec![], vec![], vec![], vec![]);
    assert_eq!(ok.unwrap().namespace(), "_ok9");
}

#[test]
fn sequence_keeps_order() {
    let t = Type::Sequence(Box::new(Type::Int32));
    let v = Value::Sequence(vec![Value::Int32(3), Value::Int32(1), Value::Int32(2)]);
    let ci = sample_interface();
    let bytes = lower(&v, &t, &ci).unwrap();
    assert_eq!(bytes, vec![3, 0, 0, 0, 3, 0, 0, 0, 1, 0, 0, 0, 2, 0, 0, 0]);
    assert_eq!(
        lift(&bytes, &t, &ci),
        Ok(Value::Sequence(vec![Value::Int32(3), Value::Int32(1), Value::Int32(2)]))
    );
}

#[test]
fn map_round_trip_keeps_pairs() {
    let t = Type::StringMap(Box::new(Type::Int32));
    let v = Value::StringMap(vec![
        ("x".to_string(), Value::Int32(1)),
        ("y".to_string(), Value::Int32(2)),
    ]);
    let ci = sample_interface();
    let bytes = lower(&v, &t, &ci).unwrap();
    let back = lift(&bytes, &t, &ci).unwrap();
    match back {
        Value::StringMap(es) => {
            assert_eq!(es.len(), 2);
            assert!(es.contains(&("x".to_string(), Value::Int32(1))));
            assert!(es.contains(&("y".to_string(), Value::Int32(2))));
        }
        other => panic!("not a map: {:?}", other),
    }
}

#[test]
fn nested_composites_round_trip() {
    let t = Type::Sequence(Box::new(Type::Optional(Box::new(Type::Record("Point".to_string())))));
    round_trip(
        Value::Sequence(vec![
            Value::Optional(Some(Box::new(point(-7, "a")))),
            Value::Optional(None),
            Value::Optional(Some(Box::new(point(42, "zé")))),
        ]),
        &t,
    );
    let t2 = Type::StringMap(Box::new(Type::Sequence(Box::new(Type::Int32))));
    round_trip(
        Value::StringMap(vec![
            ("a".to_string(), Value::Sequence(vec![Value::Int32(1), Value::Int32(-1)])),
            ("b".to_string(), Value::Sequence(vec![])),
        ]),
        &t2,
    );
}

#[test]
fn scalars_round_trip_and_bytes() {
    let ci = sample_interface();
    assert_eq!(lower(&Value::Int32(-2), &Type::Int32, &ci), Ok(vec![0xfe, 0xff, 0xff, 0xff]));
    assert_eq!(lower(&Value::UInt16(0x1234), &Type::UInt16, &ci), Ok(vec![0x34, 0x12]));
    assert_eq!(lower(&Value::Int8(-128), &Type::Int8, &ci), Ok(vec![0x80]));
    assert_eq!(
        lower(&Value::Float64(1.5f64.to_bits()), &Type::Float64, &ci),
        Ok(1.5f64.to_le_bytes().to_vec())
    );
    assert_eq!(lower(&Value::Boolean(true), &Type::Boolean, &ci), Ok(vec![1]));
    round_trip(Value::Int64(i64::MIN), &Type::Int64);
    round_trip(Value::Int64(i64::MAX), &Type::Int64);
    round_trip(Value::UInt64(u64::MAX), &Type::UInt64);
    round_trip(Value::Int16(-300), &Type::Int16);
    round_trip(Value::Float32(2.25f32.to_bits()), &Type::Float32);
    round_trip(Value::Object(9), &Type::Object("Counter".to_string()));
    round_trip(Value::Enum(2, vec![]), &Type::Enum("Color".to_string()));
    round_trip(
        Value::Error(1, vec![Value::String("disk".to_string())]),
        &Type::Error("Failure".to_string()),
    );
}

#[test]
fn empty_values_round_trip() {
    let ci = sample_interface();
    assert_eq!(lower(&Value::String(String::new()), &Type::String, &ci), Ok(vec![0, 0, 0, 0]));
    round_trip(Value::String(String::new()), &Type::String);
    round_trip(Value::Sequence(vec![]), &Type::Sequence(Box::new(Type::String)));
    round_trip(Value::StringMap(vec![]), &Type::StringMap(Box::new(Type::Int8)));
    assert_eq!(lift(&[], &Type::String, &ci), Err(CodecError::MalformedBuffer));
}

#[test]
fn truncated_buffers_are_malformed() {
    let ci = sample_interface();
    assert_eq!(lift(&[2, 0], &Type::String, &ci), Err(CodecError::MalformedBuffer));
    assert_eq!(lift(&[5, 0, 0, 0, 0x68], &Type::String, &ci), Err(CodecError::MalformedBuffer));
    assert_eq!(lift(&[1, 0, 0], &Type::Int32, &ci), Err(CodecError::MalformedBuffer));
    let t = Type::Sequence(Box::new(Type::Int32));
    let full = lower(&Value::Sequence(vec![Value::Int32(1), Value::Int32(2)]), &t, &ci).unwrap();
    for cut in 0..full.len() {
        assert_eq!(lift(&full[..cut], &t, &ci), Err(CodecError::MalformedBuffer));
    }
}

#[test]
fn invalid_bytes_are_malformed() {
    let ci = sample_interface();
    assert_eq!(lift(&[2], &Type::Boolean, &ci), Err(CodecError::MalformedBuffer));
    let opt = Type::Optional(Box::new(Type::UInt8));
    assert_eq!(lift(&[7, 1], &opt, &ci), Err(CodecError::MalformedBuffer));
    assert_eq!(lift(&[2, 0, 0, 0, 0xff, 0xfe], &Type::String, &ci), Err(CodecError::MalformedBuffer));
    assert_eq!(
        lift(&[3, 0, 0, 0], &Type::Enum("Color".to_string()), &ci),
        Err(CodecError::MalformedBuffer)
    );
    assert_eq!(lift(&[1, 9], &Type::UInt8, &ci), Err(CodecError::MalformedBuffer));
}

#[test]
fn lower_rejects_mismatch_and_unresolved() {
    let ci = sample_interface();
    assert_eq!(lower(&Value::Int32(1), &Type::String, &ci), Err(CodecError::TypeMismatch));
    assert_eq!(
        lower(&Value::Enum(3, vec![]), &Type::Enum("Color".to_string()), &ci),
        Err(CodecError::TypeMismatch)
    );
    assert_eq!(
        lower(&Value::Record(vec![Value::Int32(1)]), &Type::Record("Point".to_string()), &ci),
        Err(CodecError::TypeMismatch)
    );
    assert_eq!(
        lower(&Value::Optional(None), &Type::Optional(Box::new(Type::Record("Nope".to_string()))), &ci),
        Err(CodecError::UnresolvedReference)
    );
    assert_eq!(
        lift(&[0], &Type::Record("Nope".to_string()), &ci),
        Err(CodecError::UnresolvedReference)
    );
}

#[test]
fn classification_is_structural() {
    let a = Type::Optional(Box::new(Type::Record("Point".to_string())));
    let b = Type::Optional(Box::new(Type::Record("Point".to_string())));
    assert_eq!(classify(&a), classify(&b));
    assert_eq!(classify(&a), FFIType::RustBuffer);
    assert_eq!(classify(&Type::String), FFIType::RustBuffer);
    assert_eq!(classify(&Type::Boolean), FFIType::UInt8);
    assert_eq!(classify(&Type::Enum("Color".to_string())), FFIType::UInt32);
    assert_eq!(classify(&Type::Object("Counter".to_string())), FFIType::Handle);
    assert_eq!(classify(&Type::Float32), FFIType::Float32);
}

#[test]
fn call_outcomes_travel_both_ways() {
    let ci = sample_interface();
    let ret = Type::UInt32;
    let err = Type::Error("Failure".to_string());
    let ok = lower_outcome(&CallOutcome::Success(Value::UInt32(5)), &ret, &err, &ci).unwrap();
    assert_eq!(ok, CallStatus { code: 0, buffer: vec![5, 0, 0, 0] });
    assert_eq!(lift_outcome(&ok, &ret, &err, &ci), Ok(CallOutcome::Success(Value::UInt32(5))));
    let e = CallOutcome::ExpectedError(Value::Error(0, vec![]));
    let st = lower_outcome(&e, &ret, &err, &ci).unwrap();
    assert_eq!(st, CallStatus { code: 1, buffer: vec![0, 0, 0, 0] });
    assert_eq!(lift_outcome(&st, &ret, &err, &ci), Ok(e));
    let p = CallOutcome::UnexpectedPanic("oops".to_string());
    let st = lower_outcome(&p, &ret, &err, &ci).unwrap();
    assert_eq!(st.code, 2);
    assert_eq!(st.buffer, vec![4, 0, 0, 0, b'o', b'o', b'p', b's']);
    assert_eq!(lift_outcome(&st, &ret, &err, &ci), Ok(p));
    let bad = CallStatus { code: 9, buffer: vec![] };
    assert_eq!(lift_outcome(&bad, &ret, &err, &ci), Err(CodecError::MalformedBuffer));
}
