use vstd::prelude::*;
use vstd::utf8::encode_utf8;
use crate::types::Type;
use crate::interface::{
    ComponentInterface, Field, record_named, enum_named, error_named, record_names, enum_names,
    error_names, object_names,
};
use crate::wire::{le_bytes, pow256};

verus! {

/// A native value that crosses the boundary. Floating-point values are held
/// as their IEEE-754 bit patterns.
#[derive(Debug, PartialEq)]
pub enum Value {
    Int8(i8),
    UInt8(u8),
    Int16(i16),
    UInt16(u16),
    Int32(i32),
    UInt32(u32),
    Int64(i64),
    UInt64(u64),
    Float32(u32),
    Float64(u64),
    Boolean(bool),
    String(String),
    /// A variant index and the variant's fields.
    Enum(u32, Vec<Value>),
    /// A variant index and the variant's fields.
    Error(u32, Vec<Value>),
    Record(Vec<Value>),
    /// A handle issued by an object registry.
    Object(u64),
    Optional(Option<Box<Value>>),
    Sequence(Vec<Value>),
    /// Entries in order; keys are strings.
    StringMap(Vec<(String, Value)>),
}

/// The mathematical content of a `Value`.
pub enum ValueModel {
    Int8(i8),
    UInt8(u8),
    Int16(i16),
    UInt16(u16),
    Int32(i32),
    UInt32(u32),
    Int64(i64),
    UInt64(u64),
    Float32(u32),
    Float64(u64),
    Boolean(bool),
    String(Seq<char>),
    Enum(u32, Seq<ValueModel>),
    Error(u32, Seq<ValueModel>),
    Record(Seq<ValueModel>),
    Object(u64),
    Optional(Option<Box<ValueModel>>),
    Sequence(Seq<ValueModel>),
    StringMap(Seq<(Seq<char>, ValueModel)>),
}

pub open spec fn models_of(vs: Seq<Value>) -> Seq<ValueModel>
    decreases vs,
{
    Seq::new(
        vs.len(),
        |i: int|
            if 0 <= i < vs.len() {
                model_of(vs[i])
            } else {
                ValueModel::Boolean(false)
            },
    )
}

pub open spec fn model_of(v: Value) -> ValueModel
    decreases v,
{
    match v {
        Value::Int8(x) => ValueModel::Int8(x),
        Value::UInt8(x) => ValueModel::UInt8(x),
        Value::Int16(x) => ValueModel::Int16(x),
        Value::UInt16(x) => ValueModel::UInt16(x),
        Value::Int32(x) => ValueModel::Int32(x),
        Value::UInt32(x) => ValueModel::UInt32(x),
        Value::Int64(x) => ValueModel::Int64(x),
        Value::UInt64(x) => ValueModel::UInt64(x),
        Value::Float32(x) => ValueModel::Float32(x),
        Value::Float64(x) => ValueModel::Float64(x),
        Value::Boolean(x) => ValueModel::Boolean(x),
        Value::String(s) => ValueModel::String(s@),
        Value::Enum(i, fs) => ValueModel::Enum(
            i,
            Seq::new(
                fs@.len(),
                |k: int|
                    if 0 <= k < fs@.len() {
                        model_of(fs@[k])
                    } else {
                        ValueModel::Boolean(false)
                    },
            ),
        ),
        Value::Error(i, fs) => ValueModel::Error(
            i,
            Seq::new(
                fs@.len(),
                |k: int|
                    if 0 <= k < fs@.len() {
                        model_of(fs@[k])
                    } else {
                        ValueModel::Boolean(false)
                    },
            ),
        ),
        Value::Record(fs) => ValueModel::Record(
            Seq::new(
                fs@.len(),
                |k: int|
                    if 0 <= k < fs@.len() {
                        model_of(fs@[k])
                    } else {
                        ValueModel::Boolean(false)
                    },
            ),
        ),
        Value::Object(h) => ValueModel::Object(h),
        Value::Optional(o) => match o {
            None => ValueModel::Optional(None),
            Some(b) => ValueModel::Optional(Some(Box::new(model_of(*b)))),
        },
        Value::Sequence(items) => ValueModel::Sequence(
            Seq::new(
                items@.len(),
                |k: int|
                    if 0 <= k < items@.len() {
                        model_of(items@[k])
                    } else {
                        ValueModel::Boolean(false)
                    },
            ),
        ),
        Value::StringMap(es) => ValueModel::StringMap(
            Seq::new(
                es@.len(),
                |k: int|
                    if 0 <= k < es@.len() {
                        (es@[k].0@, model_of(es@[k].1))
                    } else {
                        (Seq::empty(), ValueModel::Boolean(false))
                    },
            ),
        ),
    }
}

/// Two's complement of `x` in `w` bytes.
pub open spec fn twos(x: int, w: nat) -> nat {
    if x < 0 {
        (x + pow256(w)) as nat
    } else {
        x as nat
    }
}

/// The signed number that `w` bytes of two's complement hold.
pub open spec fn from_twos(v: nat, w: nat) -> int {
    if v >= pow256(w) / 2 {
        v - pow256(w)
    } else {
        v as int
    }
}

/// A string on the wire: its UTF-8 length in 4 bytes, then its UTF-8 bytes.
pub open spec fn string_bytes(s: Seq<char>) -> Seq<u8> {
    le_bytes(encode_utf8(s).len(), 4) + encode_utf8(s)
}

/// The wire bytes of a value: fixed-width little-endian scalars, no padding,
/// 4-byte lengths, counts and variant indexes, 1-byte presence tags.
pub open spec fn encode(m: ValueModel) -> Seq<u8>
    decreases m,
{
    match m {
        ValueModel::Int8(x) => le_bytes(twos(x as int, 1), 1),
        ValueModel::UInt8(x) => le_bytes(x as nat, 1),
        ValueModel::Int16(x) => le_bytes(twos(x as int, 2), 2),
        ValueModel::UInt16(x) => le_bytes(x as nat, 2),
        ValueModel::Int32(x) => le_bytes(twos(x as int, 4), 4),
        ValueModel::UInt32(x) => le_bytes(x as nat, 4),
        ValueModel::Int64(x) => le_bytes(twos(x as int, 8), 8),
        ValueModel::UInt64(x) => le_bytes(x as nat, 8),
        ValueModel::Float32(x) => le_bytes(x as nat, 4),
        ValueModel::Float64(x) => le_bytes(x as nat, 8),
        ValueModel::Boolean(x) => seq![if x { 1u8 } else { 0u8 }],
        ValueModel::String(s) => string_bytes(s),
        ValueModel::Enum(i, fs) => le_bytes(i as nat, 4) + encode_list(fs),
        ValueModel::Error(i, fs) => le_bytes(i as nat, 4) + encode_list(fs),
        ValueModel::Record(fs) => encode_list(fs),
        ValueModel::Object(h) => le_bytes(h as nat, 8),
        ValueModel::Optional(o) => match o {
            None => seq![0u8],
            Some(b) => seq![1u8] + encode(*b),
        },
        ValueModel::Sequence(items) => le_bytes(items.len(), 4) + encode_list(items),
        ValueModel::StringMap(es) => le_bytes(es.len(), 4) + encode_entries(es),
    }
}

/// The encodings of values back to back, in order.
pub open spec fn encode_list(ms: Seq<ValueModel>) -> Seq<u8>
    decreases ms,
{
    if ms.len() == 0 {
        Seq::empty()
    } else {
        encode_list(ms.drop_last()) + encode(ms.last())
    }
}

/// Map entries back to back: each key as a string, then its value.
pub open spec fn encode_entries(es: Seq<(Seq<char>, ValueModel)>) -> Seq<u8>
    decreases es,
{
    if es.len() == 0 {
        Seq::empty()
    } else {
        encode_entries(es.drop_last()) + string_bytes(es.last().0) + encode(es.last().1)
    }
}

pub open spec fn fits_u32(n: nat) -> bool {
    n < 0x1_0000_0000
}

/// `m` is a value of type `t` in `ci`, nested at most `d` composites deep,
/// with every length fitting its 4-byte prefix.
pub open spec fn conforms(m: ValueModel, t: Type, ci: ComponentInterface, d: nat) -> bool
    decreases m,
{
    match (t, m) {
        (Type::Int8, ValueModel::Int8(_)) => true,
        (Type::UInt8, ValueModel::UInt8(_)) => true,
        (Type::Int16, ValueModel::Int16(_)) => true,
        (Type::UInt16, ValueModel::UInt16(_)) => true,
        (Type::Int32, ValueModel::Int32(_)) => true,
        (Type::UInt32, ValueModel::UInt32(_)) => true,
        (Type::Int64, ValueModel::Int64(_)) => true,
        (Type::UInt64, ValueModel::UInt64(_)) => true,
        (Type::Float32, ValueModel::Float32(_)) => true,
        (Type::Float64, ValueModel::Float64(_)) => true,
        (Type::Boolean, ValueModel::Boolean(_)) => true,
        (Type::String, ValueModel::String(s)) => fits_u32(encode_utf8(s).len()),
        (Type::Object(n), ValueModel::Object(_)) => object_names(ci.objects@).contains(n@),
        (Type::Record(n), ValueModel::Record(fs)) => d > 0 && record_names(ci.records@).contains(
            n@,
        ) && conforms_fields(fs, record_named(ci, n@).fields@, ci, (d - 1) as nat),
        (Type::Enum(n), ValueModel::Enum(i, fs)) => d > 0 && enum_names(ci.enums@).contains(n@)
            && i < enum_named(ci, n@).variants@.len() && conforms_fields(
            fs,
            enum_named(ci, n@).variants@[i as int].fields@,
            ci,
            (d - 1) as nat,
        ),
        (Type::Error(n), ValueModel::Error(i, fs)) => d > 0 && error_names(ci.errors@).contains(
            n@,
        ) && i < error_named(ci, n@).variants@.len() && conforms_fields(
            fs,
            error_named(ci, n@).variants@[i as int].fields@,
            ci,
            (d - 1) as nat,
        ),
        (Type::Optional(x), ValueModel::Optional(o)) => d > 0 && match o {
            None => true,
            Some(b) => conforms(*b, *x, ci, (d - 1) as nat),
        },
        (Type::Sequence(x), ValueModel::Sequence(items)) => d > 0 && fits_u32(items.len())
            && conforms_all(items, *x, ci, (d - 1) as nat),
        (Type::StringMap(x), ValueModel::StringMap(es)) => d > 0 && fits_u32(es.len())
            && conforms_entries(es, *x, ci, (d - 1) as nat),
        _ => false,
    }
}

/// Each value conforms to the field at the same position.
pub open spec fn conforms_fields(
    ms: Seq<ValueModel>,
    fs: Seq<Field>,
    ci: ComponentInterface,
    d: nat,
) -> bool
    decreases ms,
{
    if ms.len() == 0 {
        fs.len() == 0
    } else {
        fs.len() == ms.len() && conforms_fields(ms.drop_last(), fs.drop_last(), ci, d) && conforms(
            ms.last(),
            fs.last().type_,
            ci,
            d,
        )
    }
}

pub open spec fn conforms_all(ms: Seq<ValueModel>, t: Type, ci: ComponentInterface, d: nat) -> bool
    decreases ms,
{
    if ms.len() == 0 {
        true
    } else {
        conforms_all(ms.drop_last(), t, ci, d) && conforms(ms.last(), t, ci, d)
    }
}

pub open spec fn conforms_entries(
    es: Seq<(Seq<char>, ValueModel)>,
    t: Type,
    ci: ComponentInterface,
    d: nat,
) -> bool
    decreases es,
{
    if es.len() == 0 {
        true
    } else {
        conforms_entries(es.drop_last(), t, ci, d) && fits_u32(encode_utf8(es.last().0).len())
            && conforms(es.last().1, t, ci, d)
    }
}

} // verus!

verus! {

pub proof fn lemma_conforms_fields(ms: Seq<ValueModel>, fs: Seq<Field>, ci: ComponentInterface, d: nat)
    ensures
        conforms_fields(ms, fs, ci, d) <==> (ms.len() == fs.len() && forall|k: int|
            0 <= k < ms.len() ==> conforms(#[trigger] ms[k], fs[k].type_, ci, d)),
    decreases ms.len(),
{
    if ms.len() > 0 {
        lemma_conforms_fields(ms.drop_last(), fs.drop_last(), ci, d);
        if ms.len() == fs.len() && forall|k: int|
            0 <= k < ms.len() ==> conforms(#[trigger] ms[k], fs[k].type_, ci, d) {
            assert forall|k: int| 0 <= k < ms.drop_last().len() implies conforms(
                #[trigger] ms.drop_last()[k],
                fs.drop_last()[k].type_,
                ci,
                d,
            ) by {
                assert(ms.drop_last()[k] == ms[k]);
                assert(fs.drop_last()[k] == fs[k]);
            }
        }
        if conforms_fields(ms, fs, ci, d) {
            assert forall|k: int| 0 <= k < ms.len() implies conforms(
                #[trigger] ms[k],
                fs[k].type_,
                ci,
                d,
            ) by {
                if k < ms.len() - 1 {
                    assert(ms.drop_last()[k] == ms[k]);
                    assert(fs.drop_last()[k] == fs[k]);
                }
            }
        }
    }
}

pub proof fn lemma_conforms_all(ms: Seq<ValueModel>, t: Type, ci: ComponentInterface, d: nat)
    ensures
        conforms_all(ms, t, ci, d) <==> forall|k: int|
            0 <= k < ms.len() ==> conforms(#[trigger] ms[k], t, ci, d),
    decreases ms.len(),
{
    if ms.len() > 0 {
        lemma_conforms_all(ms.drop_last(), t, ci, d);
        if forall|k: int| 0 <= k < ms.len() ==> conforms(#[trigger] ms[k], t, ci, d) {
            assert forall|k: int| 0 <= k < ms.drop_last().len() implies conforms(
                #[trigger] ms.drop_last()[k],
                t,
                ci,
                d,
            ) by {
                assert(ms.drop_last()[k] == ms[k]);
            }
        }
        if conforms_all(ms, t, ci, d) {
            assert forall|k: int| 0 <= k < ms.len() implies conforms(#[trigger] ms[k], t, ci, d) by {
                if k < ms.len() - 1 {
                    assert(ms.drop_last()[k] == ms[k]);
                }
            }
        }
    }
}

pub proof fn lemma_conforms_entries(
    es: Seq<(Seq<char>, ValueModel)>,
    t: Type,
    ci: ComponentInterface,
    d: nat,
)
    ensures
        conforms_entries(es, t, ci, d) <==> forall|k: int|
            0 <= k < es.len() ==> fits_u32(encode_utf8(#[trigger] es[k].0).len()) && conforms(
                es[k].1,
                t,
                ci,
                d,
            ),
    decreases es.len(),
{
    if es.len() > 0 {
        lemma_conforms_entries(es.drop_last(), t, ci, d);
        if forall|k: int|
            0 <= k < es.len() ==> fits_u32(encode_utf8(#[trigger] es[k].0).len()) && conforms(
                es[k].1,
                t,
                ci,
                d,
            ) {
            assert forall|k: int| 0 <= k < es.drop_last().len() implies fits_u32(
                encode_utf8(#[trigger] es.drop_last()[k].0).len(),
            ) && conforms(es.drop_last()[k].1, t, ci, d) by {
                assert(es.drop_last()[k] == es[k]);
                assert(fits_u32(encode_utf8(es[k].0).len()));
            }
            let l = es.len() - 1;
            assert(fits_u32(encode_utf8(es[l].0).len()));
            assert(conforms(es[l].1, t, ci, d));
            assert(es.last() == es[l]);
        }
        if conforms_entries(es, t, ci, d) {
            assert forall|k: int| 0 <= k < es.len() implies fits_u32(
                encode_utf8(#[trigger] es[k].0).len(),
            ) && conforms(es[k].1, t, ci, d) by {
                if k < es.len() - 1 {
                    assert(es.drop_last()[k] == es[k]);
                    assert(fits_u32(encode_utf8(es.drop_last()[k].0).len()));
                } else {
                    assert(es.last() == es[k]);
                }
            }
        }
    }
}

} // verus!
