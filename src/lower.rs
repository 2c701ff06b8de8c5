use vstd::prelude::*;
use vstd::utf8::encode_utf8;
use crate::types::Type;
use crate::interface::{ComponentInterface, Field, resolves};
use crate::wire::{put_le, le_bytes, lemma_pow256_values};
use crate::value::{
    Value, ValueModel, model_of, models_of, encode, encode_list, encode_entries,
    string_bytes, fits_u32, conforms, conforms_fields, conforms_all, conforms_entries,
    lemma_conforms_fields, lemma_conforms_all, lemma_conforms_entries,
};

verus! {

/// How many composite values may nest inside one another on the wire.
pub const MAX_NESTING: usize = 64;

/// Why a value could not be lowered or lifted.
#[derive(Debug, PartialEq, Eq, Clone, Copy, Structural)]
pub enum CodecError {
    /// The type names a definition that the interface does not hold.
    UnresolvedReference,
    /// The value is not of the type, nests too deeply, or holds a length
    /// that does not fit in 4 bytes.
    TypeMismatch,
    /// The bytes are truncated, hold an unknown tag, variant index or
    /// boolean byte, invalid UTF-8, or bytes past the end of the value.
    MalformedBuffer,
}

/// The models of map entries.
pub open spec fn entry_models(es: Seq<(String, Value)>) -> Seq<(Seq<char>, ValueModel)> {
    Seq::new(es.len(), |k: int| (es[k].0@, model_of(es[k].1)))
}

pub fn append_bytes(out: &mut Vec<u8>, b: &[u8])
    ensures
        final(out)@ == old(out)@ + b@,
{
    let ghost start = old(out)@;
    let mut i: usize = 0;
    while i < b.len()
        invariant
            i <= b@.len(),
            out@ == start + b@.take(i as int),
        decreases b@.len() - i,
    {
        out.push(b[i]);
        i = i + 1;
        assert(out@ =~= start + b@.take(i as int));
    }
    assert(b@.take(i as int) =~= b@);
}

/// Appends a string: its UTF-8 length in 4 bytes, then the bytes. Fails,
/// appending nothing, where the length does not fit.
pub fn lower_string(s: &String, out: &mut Vec<u8>) -> (r: bool)
    ensures
        r == fits_u32(encode_utf8(s@).len()),
        r ==> final(out)@ == old(out)@ + string_bytes(s@),
        !r ==> final(out)@ == old(out)@,
{
    let b = s.as_str().as_bytes();
    let n = b.len();
    if n as u64 >= 0x1_0000_0000u64 {
        return false;
    }
    put_le(out, n as u64, 4);
    append_bytes(out, b);
    proof {
        assert(old(out)@ + le_bytes(n as nat, 4) + b@ =~= old(out)@ + string_bytes(s@));
    }
    true
}

/// Appends the encoding of `v` as a value of type `t`, where it conforms.
pub fn lower_value(v: &Value, t: &Type, ci: &ComponentInterface, d: usize, out: &mut Vec<u8>) -> (r:
    bool)
    requires
        ci.wf(),
    ensures
        r == conforms(model_of(*v), *t, *ci, d as nat),
        r ==> final(out)@ == old(out)@ + encode(model_of(*v)),
    decreases v,
{
    proof {
        lemma_pow256_values();
    }
    match t {
        Type::Int8 => match v {
            Value::Int8(x) => {
                let u: u64 = if *x < 0 {
                    (*x as i16 + 256) as u64
                } else {
                    *x as u64
                };
                put_le(out, u, 1);
                true
            },
            _ => false,
        },
        Type::UInt8 => match v {
            Value::UInt8(x) => {
                put_le(out, *x as u64, 1);
                true
            },
            _ => false,
        },
        Type::Int16 => match v {
            Value::Int16(x) => {
                let u: u64 = if *x < 0 {
                    (*x as i32 + 0x1_0000) as u64
                } else {
                    *x as u64
                };
                put_le(out, u, 2);
                true
            },
            _ => false,
        },
        Type::UInt16 => match v {
            Value::UInt16(x) => {
                put_le(out, *x as u64, 2);
                true
            },
            _ => false,
        },
        Type::Int32 => match v {
            Value::Int32(x) => {
                let u: u64 = if *x < 0 {
                    (*x as i64 + 0x1_0000_0000) as u64
                } else {
                    *x as u64
                };
                put_le(out, u, 4);
                true
            },
            _ => false,
        },
        Type::UInt32 => match v {
            Value::UInt32(x) => {
                put_le(out, *x as u64, 4);
                true
            },
            _ => false,
        },
        Type::Int64 => match v {
            Value::Int64(x) => {
                let u: u64 = if *x < 0 {
                    (*x as i128 + 0x1_0000_0000_0000_0000) as u64
                } else {
                    *x as u64
                };
                put_le(out, u, 8);
                true
            },
            _ => false,
        },
        Type::UInt64 => match v {
            Value::UInt64(x) => {
                put_le(out, *x, 8);
                true
            },
            _ => false,
        },
        Type::Float32 => match v {
            Value::Float32(x) => {
                put_le(out, *x as u64, 4);
                true
            },
            _ => false,
        },
        Type::Float64 => match v {
            Value::Float64(x) => {
                put_le(out, *x, 8);
                true
            },
            _ => false,
        },
        Type::Boolean => match v {
            Value::Boolean(x) => {
                out.push(if *x { 1u8 } else { 0u8 });
                true
            },
            _ => false,
        },
        Type::String => match v {
            Value::String(s) => lower_string(s, out),
            _ => false,
        },
        Type::Object(n) => match v {
            Value::Object(h) => {
                if ci.find_object(n).is_none() {
                    return false;
                }
                put_le(out, *h, 8);
                true
            },
            _ => false,
        },
        Type::Record(n) => match v {
            Value::Record(fs) => {
                if d == 0 {
                    return false;
                }
                match ci.find_record(n) {
                    None => false,
                    Some(i) => {
                        proof {
                            ci.lemma_record_named(i as int);
                            assert(models_of(fs@) =~= model_of(*v)->Record_0);
                        }
                        lower_fields(fs, &ci.records[i].fields, ci, d - 1, out)
                    },
                }
            },
            _ => false,
        },
        Type::Enum(n) => match v {
            Value::Enum(i, fs) => {
                if d == 0 {
                    return false;
                }
                match ci.find_enum(n) {
                    None => false,
                    Some(e) => {
                        proof {
                            ci.lemma_enum_named(e as int);
                            assert(models_of(fs@) =~= model_of(*v)->Enum_1);
                        }
                        if *i as usize >= ci.enums[e].variants.len() {
                            return false;
                        }
                        put_le(out, *i as u64, 4);
                        let ok = lower_fields(
                            fs,
                            &ci.enums[e].variants[*i as usize].fields,
                            ci,
                            d - 1,
                            out,
                        );
                        proof {
                            if ok {
                                assert(out@ =~= old(out)@ + encode(model_of(*v)));
                            }
                        }
                        ok
                    },
                }
            },
            _ => false,
        },
        Type::Error(n) => match v {
            Value::Error(i, fs) => {
                if d == 0 {
                    return false;
                }
                match ci.find_error(n) {
                    None => false,
                    Some(e) => {
                        proof {
                            ci.lemma_error_named(e as int);
                            assert(models_of(fs@) =~= model_of(*v)->Error_1);
                        }
                        if *i as usize >= ci.errors[e].variants.len() {
                            return false;
                        }
                        put_le(out, *i as u64, 4);
                        let ok = lower_fields(
                            fs,
                            &ci.errors[e].variants[*i as usize].fields,
                            ci,
                            d - 1,
                            out,
                        );
                        proof {
                            if ok {
                                assert(out@ =~= old(out)@ + encode(model_of(*v)));
                            }
                        }
                        ok
                    },
                }
            },
            _ => false,
        },
        Type::Optional(x) => match v {
            Value::Optional(o) => {
                if d == 0 {
                    return false;
                }
                match o {
                    None => {
                        out.push(0u8);
                        true
                    },
                    Some(b) => {
                        out.push(1u8);
                        let ok = lower_value(b, x, ci, d - 1, out);
                        proof {
                            if ok {
                                assert(out@ =~= old(out)@ + encode(model_of(*v)));
                            }
                        }
                        ok
                    },
                }
            },
            _ => false,
        },
        Type::Sequence(x) => match v {
            Value::Sequence(items) => {
                if d == 0 || items.len() as u64 >= 0x1_0000_0000u64 {
                    return false;
                }
                proof {
                    assert(models_of(items@) =~= model_of(*v)->Sequence_0);
                }
                put_le(out, items.len() as u64, 4);
                let ok = lower_all(items, x, ci, d - 1, out);
                proof {
                    if ok {
                        assert(out@ =~= old(out)@ + encode(model_of(*v)));
                    }
                }
                ok
            },
            _ => false,
        },
        Type::StringMap(x) => match v {
            Value::StringMap(es) => {
                if d == 0 || es.len() as u64 >= 0x1_0000_0000u64 {
                    return false;
                }
                proof {
                    assert(entry_models(es@) =~= model_of(*v)->StringMap_0);
                }
                put_le(out, es.len() as u64, 4);
                let ok = lower_entries(es, x, ci, d - 1, out);
                proof {
                    if ok {
                        assert(out@ =~= old(out)@ + encode(model_of(*v)));
                    }
                }
                ok
            },
            _ => false,
        },
    }
}

/// Appends the values of `vs`, one per field of `fs`, in order.
pub fn lower_fields(
    vs: &Vec<Value>,
    fs: &Vec<Field>,
    ci: &ComponentInterface,
    d: usize,
    out: &mut Vec<u8>,
) -> (r: bool)
    requires
        ci.wf(),
    ensures
        r == conforms_fields(models_of(vs@), fs@, *ci, d as nat),
        r ==> final(out)@ == old(out)@ + encode_list(models_of(vs@)),
    decreases vs,
{
    let ghost ms = models_of(vs@);
    proof {
        lemma_conforms_fields(ms, fs@, *ci, d as nat);
    }
    if vs.len() != fs.len() {
        return false;
    }
    let mut k: usize = 0;
    while k < vs.len()
        invariant
            ci.wf(),
            k <= vs@.len() == fs@.len() == ms.len(),
            ms == models_of(vs@),
            out@ == old(out)@ + encode_list(ms.take(k as int)),
            forall|j: int| 0 <= j < k ==> conforms(#[trigger] ms[j], fs@[j].type_, *ci, d as nat),
            conforms_fields(ms, fs@, *ci, d as nat) <==> forall|j: int|
                0 <= j < ms.len() ==> conforms(#[trigger] ms[j], fs@[j].type_, *ci, d as nat),
        decreases vs@.len() - k,
    {
        proof {
            assert(decreases_to!(vs => vs@[k as int]));
        }
        if !lower_value(&vs[k], &fs[k].type_, ci, d, out) {
            proof {
                assert(ms[k as int] == model_of(vs@[k as int]));
                assert(!conforms(ms[k as int], fs@[k as int].type_, *ci, d as nat));
            }
            return false;
        }
        proof {
            assert(ms.take(k + 1).drop_last() =~= ms.take(k as int));
            assert(out@ =~= old(out)@ + encode_list(ms.take(k + 1)));
        }
        k = k + 1;
    }
    proof {
        assert(ms.take(k as int) =~= ms);
    }
    true
}

/// Appends every value of `vs` as a value of type `t`, in order.
pub fn lower_all(vs: &Vec<Value>, t: &Type, ci: &ComponentInterface, d: usize, out: &mut Vec<u8>) -> (r:
    bool)
    requires
        ci.wf(),
    ensures
        r == conforms_all(models_of(vs@), *t, *ci, d as nat),
        r ==> final(out)@ == old(out)@ + encode_list(models_of(vs@)),
    decreases vs,
{
    let ghost ms = models_of(vs@);
    proof {
        lemma_conforms_all(ms, *t, *ci, d as nat);
    }
    let mut k: usize = 0;
    while k < vs.len()
        invariant
            ci.wf(),
            k <= vs@.len() == ms.len(),
            ms == models_of(vs@),
            out@ == old(out)@ + encode_list(ms.take(k as int)),
            forall|j: int| 0 <= j < k ==> conforms(#[trigger] ms[j], *t, *ci, d as nat),
            conforms_all(ms, *t, *ci, d as nat) <==> forall|j: int|
                0 <= j < ms.len() ==> conforms(#[trigger] ms[j], *t, *ci, d as nat),
        decreases vs@.len() - k,
    {
        proof {
            assert(decreases_to!(vs => vs@[k as int]));
        }
        if !lower_value(&vs[k], t, ci, d, out) {
            proof {
                assert(ms[k as int] == model_of(vs@[k as int]));
                assert(!conforms(ms[k as int], *t, *ci, d as nat));
            }
            return false;
        }
        proof {
            assert(ms.take(k + 1).drop_last() =~= ms.take(k as int));
            assert(out@ =~= old(out)@ + encode_list(ms.take(k + 1)));
        }
        k = k + 1;
    }
    proof {
        assert(ms.take(k as int) =~= ms);
    }
    true
}

/// Appends every entry of `es`: its key as a string, then its value as a
/// value of type `t`.
pub fn lower_entries(
    es: &Vec<(String, Value)>,
    t: &Type,
    ci: &ComponentInterface,
    d: usize,
    out: &mut Vec<u8>,
) -> (r: bool)
    requires
        ci.wf(),
    ensures
        r == conforms_entries(entry_models(es@), *t, *ci, d as nat),
        r ==> final(out)@ == old(out)@ + encode_entries(entry_models(es@)),
    decreases es,
{
    let ghost ms = entry_models(es@);
    proof {
        lemma_conforms_entries(ms, *t, *ci, d as nat);
    }
    let mut k: usize = 0;
    while k < es.len()
        invariant
            ci.wf(),
            k <= es@.len() == ms.len(),
            ms == entry_models(es@),
            out@ == old(out)@ + encode_entries(ms.take(k as int)),
            forall|j: int|
                0 <= j < k ==> fits_u32(encode_utf8(#[trigger] ms[j].0).len()) && conforms(
                    ms[j].1,
                    *t,
                    *ci,
                    d as nat,
                ),
            conforms_entries(ms, *t, *ci, d as nat) <==> forall|j: int|
                0 <= j < ms.len() ==> fits_u32(encode_utf8(#[trigger] ms[j].0).len()) && conforms(
                    ms[j].1,
                    *t,
                    *ci,
                    d as nat,
                ),
        decreases es@.len() - k,
    {
        if !lower_string(&es[k].0, out) {
            return false;
        }
        proof {
            assert(decreases_to!(es => es@[k as int].1));
        }
        if !lower_value(&es[k].1, t, ci, d, out) {
            return false;
        }
        proof {
            assert(ms.take(k + 1).drop_last() =~= ms.take(k as int));
            assert(out@ =~= old(out)@ + encode_entries(ms.take(k + 1)));
        }
        k = k + 1;
    }
    proof {
        assert(ms.take(k as int) =~= ms);
    }
    true
}

} // verus!

verus! {

/// Serialises `v` as a value of type `t` into a fresh buffer.
pub fn lower(v: &Value, t: &Type, ci: &ComponentInterface) -> (r: Result<Vec<u8>, CodecError>)
    requires
        ci.wf(),
    ensures
        !resolves(*t, *ci) ==> r == Err::<Vec<u8>, CodecError>(CodecError::UnresolvedReference),
        resolves(*t, *ci) ==> ((r is Ok) <==> conforms(
            model_of(*v),
            *t,
            *ci,
            MAX_NESTING as nat,
        )),
        resolves(*t, *ci) && r is Err ==> r == Err::<Vec<u8>, CodecError>(CodecError::TypeMismatch),
        r matches Ok(b) ==> b@ == encode(model_of(*v)),
{
    if !ci.type_resolves(t) {
        return Err(CodecError::UnresolvedReference);
    }
    let mut out: Vec<u8> = Vec::new();
    if lower_value(v, t, ci, MAX_NESTING, &mut out) {
        proof {
            assert(out@ =~= encode(model_of(*v)));
        }
        Ok(out)
    } else {
        Err(CodecError::TypeMismatch)
    }
}

} // verus!
