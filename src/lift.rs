use vstd::prelude::*;
use vstd::utf8::{decode_utf8, valid_utf8};
use crate::types::Type;
use crate::interface::{ComponentInterface, Field, resolves};
use crate::wire::{read_le, le_value, pow256, lemma_pow256_values, lemma_le_value_bound};
use crate::value::{Value, ValueModel, model_of, models_of, encode, conforms};
use crate::codec::{
    read_uint, decode, decode_fields, decode_repeat, decode_entries, decode_string,
    lemma_fields_prefix, lemma_repeat_prefix, lemma_entries_prefix, lemma_round_trip, lemma_decode_extend,
    lemma_decode_sound,
};
use crate::lower::{CodecError, MAX_NESTING, entry_models};

verus! {

/// Relies on `String::from_utf8`: it succeeds exactly on well-formed UTF-8,
/// and the string then holds the characters that the bytes encode.
#[verifier::external_body]
fn string_from_utf8(bytes: Vec<u8>) -> (r: Option<String>)
    ensures
        r is Some <==> valid_utf8(bytes@),
        r matches Some(s) ==> s@ == decode_utf8(bytes@),
{
    String::from_utf8(bytes).ok()
}

/// A copy of the bytes of `b` from `start` to `end`.
pub fn copy_range(b: &[u8], start: usize, end: usize) -> (r: Vec<u8>)
    requires
        start <= end <= b@.len(),
    ensures
        r@ == b@.subrange(start as int, end as int),
{
    let mut out: Vec<u8> = Vec::new();
    let mut i: usize = start;
    while i < end
        invariant
            start <= i <= end <= b@.len(),
            out@ == b@.subrange(start as int, i as int),
        decreases end - i,
    {
        out.push(b[i]);
        i = i + 1;
        assert(out@ =~= b@.subrange(start as int, i as int));
    }
    out
}

/// The `w` bytes at `pos` as a little-endian number, where they are there.
pub fn read_uint_at(b: &[u8], pos: usize, w: usize) -> (r: Option<u64>)
    requires
        w <= 8,
    ensures
        match read_uint(b@, pos as nat, w as nat) {
            Some(x) => r == Some(x as u64) && x < pow256(w as nat),
            None => r is None,
        },
        r is Some ==> pos + w <= b@.len() <= usize::MAX,
{
    if w > b.len() || pos > b.len() - w {
        None
    } else {
        proof {
            lemma_le_value_bound(b@.subrange(pos as int, pos + w));
        }
        Some(read_le(b, pos, w))
    }
}

/// Reads a string at `pos`: a 4-byte length, then that many bytes of UTF-8.
pub fn lift_string(b: &[u8], pos: usize) -> (r: Option<(String, usize)>)
    ensures
        match decode_string(b@, pos as nat) {
            Some((s, p)) => r matches Some((st, q)) && st@ == s && q as nat == p && q <= b@.len(),
            None => r is None,
        },
{
    proof {
        lemma_pow256_values();
    }
    match read_uint_at(b, pos, 4) {
        None => None,
        Some(n) => {
            let start = pos + 4;
            if n as usize > b.len() - start {
                return None;
            }
            let end = start + n as usize;
            let bytes = copy_range(b, start, end);
            match string_from_utf8(bytes) {
                None => None,
                Some(s) => Some((s, end)),
            }
        },
    }
}

/// Reads a value of type `t` at `pos`, nesting at most `d` composites deep.
pub fn lift_value(b: &[u8], pos: usize, t: &Type, ci: &ComponentInterface, d: usize) -> (r: Option<
    (Value, usize),
>)
    requires
        ci.wf(),
        pos <= b@.len(),
    ensures
        match decode(b@, pos as nat, *t, *ci, d as nat) {
            Some((m, p)) => r matches Some((v, q)) && model_of(v) == m && q as nat == p && q
                <= b@.len(),
            None => r is None,
        },
    decreases d, 0nat,
{
    proof {
        lemma_pow256_values();
    }
    match t {
        Type::Int8 => match read_uint_at(b, pos, 1) {
            Some(x) => {
                let v: i8 = if x >= 128 {
                    (x as i16 - 256) as i8
                } else {
                    x as i8
                };
                Some((Value::Int8(v), pos + 1))
            },
            None => None,
        },
        Type::UInt8 => match read_uint_at(b, pos, 1) {
            Some(x) => Some((Value::UInt8(x as u8), pos + 1)),
            None => None,
        },
        Type::Int16 => match read_uint_at(b, pos, 2) {
            Some(x) => {
                let v: i16 = if x >= 0x8000 {
                    (x as i32 - 0x1_0000) as i16
                } else {
                    x as i16
                };
                Some((Value::Int16(v), pos + 2))
            },
            None => None,
        },
        Type::UInt16 => match read_uint_at(b, pos, 2) {
            Some(x) => Some((Value::UInt16(x as u16), pos + 2)),
            None => None,
        },
        Type::Int32 => match read_uint_at(b, pos, 4) {
            Some(x) => {
                let v: i32 = if x >= 0x8000_0000 {
                    (x as i64 - 0x1_0000_0000) as i32
                } else {
                    x as i32
                };
                Some((Value::Int32(v), pos + 4))
            },
            None => None,
        },
        Type::UInt32 => match read_uint_at(b, pos, 4) {
            Some(x) => Some((Value::UInt32(x as u32), pos + 4)),
            None => None,
        },
        Type::Int64 => match read_uint_at(b, pos, 8) {
            Some(x) => {
                let v: i64 = if x >= 0x8000_0000_0000_0000 {
                    (x as i128 - 0x1_0000_0000_0000_0000) as i64
                } else {
                    x as i64
                };
                Some((Value::Int64(v), pos + 8))
            },
            None => None,
        },
        Type::UInt64 => match read_uint_at(b, pos, 8) {
            Some(x) => Some((Value::UInt64(x), pos + 8)),
            None => None,
        },
        Type::Float32 => match read_uint_at(b, pos, 4) {
            Some(x) => Some((Value::Float32(x as u32), pos + 4)),
            None => None,
        },
        Type::Float64 => match read_uint_at(b, pos, 8) {
            Some(x) => Some((Value::Float64(x), pos + 8)),
            None => None,
        },
        Type::Boolean => match read_uint_at(b, pos, 1) {
            Some(x) => if x == 0 {
                Some((Value::Boolean(false), pos + 1))
            } else if x == 1 {
                Some((Value::Boolean(true), pos + 1))
            } else {
                None
            },
            None => None,
        },
        Type::String => match lift_string(b, pos) {
            Some((s, q)) => Some((Value::String(s), q)),
            None => None,
        },
        Type::Object(n) => {
            if ci.find_object(n).is_none() {
                return None;
            }
            match read_uint_at(b, pos, 8) {
                Some(x) => Some((Value::Object(x), pos + 8)),
                None => None,
            }
        },
        Type::Record(n) => {
            if d == 0 {
                return None;
            }
            match ci.find_record(n) {
                None => None,
                Some(i) => {
                    proof {
                        ci.lemma_record_named(i as int);
                    }
                    match lift_fields(b, pos, &ci.records[i].fields, ci, d - 1) {
                        Some((vs, q)) => {
                            let v = Value::Record(vs);
                            proof {
                                assert(models_of(vs@) =~= model_of(v)->Record_0);
                            }
                            Some((v, q))
                        },
                        None => None,
                    }
                },
            }
        },
        Type::Enum(n) => {
            if d == 0 {
                return None;
            }
            match ci.find_enum(n) {
                None => None,
                Some(e) => {
                    proof {
                        ci.lemma_enum_named(e as int);
                    }
                    match read_uint_at(b, pos, 4) {
                        None => None,
                        Some(i) => {
                            if i as usize >= ci.enums[e].variants.len() {
                                return None;
                            }
                            match lift_fields(
                                b,
                                pos + 4,
                                &ci.enums[e].variants[i as usize].fields,
                                ci,
                                d - 1,
                            ) {
                                Some((vs, q)) => {
                                    let v = Value::Enum(i as u32, vs);
                                    proof {
                                        assert(models_of(vs@) =~= model_of(v)->Enum_1);
                                    }
                                    Some((v, q))
                                },
                                None => None,
                            }
                        },
                    }
                },
            }
        },
        Type::Error(n) => {
            if d == 0 {
                return None;
            }
            match ci.find_error(n) {
                None => None,
                Some(e) => {
                    proof {
                        ci.lemma_error_named(e as int);
                    }
                    match read_uint_at(b, pos, 4) {
                        None => None,
                        Some(i) => {
                            if i as usize >= ci.errors[e].variants.len() {
                                return None;
                            }
                            match lift_fields(
                                b,
                                pos + 4,
                                &ci.errors[e].variants[i as usize].fields,
                                ci,
                                d - 1,
                            ) {
                                Some((vs, q)) => {
                                    let v = Value::Error(i as u32, vs);
                                    proof {
                                        assert(models_of(vs@) =~= model_of(v)->Error_1);
                                    }
                                    Some((v, q))
                                },
                                None => None,
                            }
                        },
                    }
                },
            }
        },
        Type::Optional(x) => {
            if d == 0 {
                return None;
            }
            match read_uint_at(b, pos, 1) {
                None => None,
                Some(tag) => if tag == 0 {
                    Some((Value::Optional(None), pos + 1))
                } else if tag == 1 {
                    match lift_value(b, pos + 1, x, ci, d - 1) {
                        Some((v, q)) => Some((Value::Optional(Some(Box::new(v))), q)),
                        None => None,
                    }
                } else {
                    None
                },
            }
        },
        Type::Sequence(x) => {
            if d == 0 {
                return None;
            }
            match read_uint_at(b, pos, 4) {
                None => None,
                Some(n) => match lift_repeat(b, pos + 4, x, ci, d - 1, n) {
                    Some((vs, q)) => {
                        let v = Value::Sequence(vs);
                        proof {
                            assert(models_of(vs@) =~= model_of(v)->Sequence_0);
                        }
                        Some((v, q))
                    },
                    None => None,
                },
            }
        },
        Type::StringMap(x) => {
            if d == 0 {
                return None;
            }
            match read_uint_at(b, pos, 4) {
                None => None,
                Some(n) => match lift_entries(b, pos + 4, x, ci, d - 1, n) {
                    Some((es, q)) => {
                        let v = Value::StringMap(es);
                        proof {
                            assert(entry_models(es@) =~= model_of(v)->StringMap_0);
                        }
                        Some((v, q))
                    },
                    None => None,
                },
            }
        },
    }
}

/// Reads one value per field of `fs`, in order, from `pos` on.
pub fn lift_fields(b: &[u8], pos: usize, fs: &Vec<Field>, ci: &ComponentInterface, d: usize) -> (r:
    Option<(Vec<Value>, usize)>)
    requires
        ci.wf(),
        pos <= b@.len(),
    ensures
        match decode_fields(b@, pos as nat, fs@, *ci, d as nat) {
            Some((ms, p)) => r matches Some((vs, q)) && models_of(vs@) == ms && q as nat == p && q
                <= b@.len(),
            None => r is None,
        },
    decreases d, 1nat,
{
    let mut out: Vec<Value> = Vec::new();
    let mut p: usize = pos;
    let mut k: usize = 0;
    proof {
        assert(fs@.take(0) =~= Seq::<Field>::empty());
        assert(models_of(out@) =~= Seq::empty());
    }
    while k < fs.len()
        invariant
            ci.wf(),
            k <= fs@.len(),
            p <= b@.len(),
            decode_fields(b@, pos as nat, fs@.take(k as int), *ci, d as nat) == Some(
                (models_of(out@), p as nat),
            ),
        decreases fs@.len() - k,
    {
        proof {
            assert(fs@.take(k + 1).drop_last() =~= fs@.take(k as int));
            assert(fs@.take(k + 1).last() == fs@[k as int]);
        }
        match lift_value(b, p, &fs[k].type_, ci, d) {
            None => {
                proof {
                    lemma_fields_prefix(b@, pos as nat, fs@, *ci, d as nat, k + 1);
                }
                return None;
            },
            Some((v, q)) => {
                let ghost before = out@;
                out.push(v);
                p = q;
                proof {
                    assert(models_of(out@) =~= models_of(before).push(model_of(v)));
                }
            },
        }
        k = k + 1;
    }
    proof {
        assert(fs@.take(k as int) =~= fs@);
    }
    Some((out, p))
}

/// Reads `n` values of type `t`, in order, from `pos` on.
pub fn lift_repeat(b: &[u8], pos: usize, t: &Type, ci: &ComponentInterface, d: usize, n: u64) -> (r:
    Option<(Vec<Value>, usize)>)
    requires
        ci.wf(),
        pos <= b@.len(),
    ensures
        match decode_repeat(b@, pos as nat, *t, *ci, d as nat, n as nat) {
            Some((ms, p)) => r matches Some((vs, q)) && models_of(vs@) == ms && q as nat == p && q
                <= b@.len(),
            None => r is None,
        },
    decreases d, 1nat,
{
    let mut out: Vec<Value> = Vec::new();
    let mut p: usize = pos;
    let mut k: u64 = 0;
    proof {
        assert(models_of(out@) =~= Seq::empty());
    }
    while k < n
        invariant
            ci.wf(),
            k <= n,
            p <= b@.len(),
            decode_repeat(b@, pos as nat, *t, *ci, d as nat, k as nat) == Some(
                (models_of(out@), p as nat),
            ),
        decreases n - k,
    {
        match lift_value(b, p, t, ci, d) {
            None => {
                proof {
                    lemma_repeat_prefix(b@, pos as nat, *t, *ci, d as nat, n as nat, (k + 1) as nat);
                }
                return None;
            },
            Some((v, q)) => {
                let ghost before = out@;
                out.push(v);
                p = q;
                proof {
                    assert(models_of(out@) =~= models_of(before).push(model_of(v)));
                }
            },
        }
        k = k + 1;
    }
    Some((out, p))
}

/// Reads `n` map entries, each a string key then a value of type `t`.
pub fn lift_entries(b: &[u8], pos: usize, t: &Type, ci: &ComponentInterface, d: usize, n: u64) -> (r:
    Option<(Vec<(String, Value)>, usize)>)
    requires
        ci.wf(),
        pos <= b@.len(),
    ensures
        match decode_entries(b@, pos as nat, *t, *ci, d as nat, n as nat) {
            Some((ms, p)) => r matches Some((es, q)) && entry_models(es@) == ms && q as nat == p
                && q <= b@.len(),
            None => r is None,
        },
    decreases d, 1nat,
{
    let mut out: Vec<(String, Value)> = Vec::new();
    let mut p: usize = pos;
    let mut k: u64 = 0;
    proof {
        assert(entry_models(out@) =~= Seq::empty());
    }
    while k < n
        invariant
            ci.wf(),
            k <= n,
            p <= b@.len(),
            decode_entries(b@, pos as nat, *t, *ci, d as nat, k as nat) == Some(
                (entry_models(out@), p as nat),
            ),
        decreases n - k,
    {
        let key = match lift_string(b, p) {
            None => {
                proof {
                    lemma_entries_prefix(b@, pos as nat, *t, *ci, d as nat, n as nat, (k + 1) as nat);
                }
                return None;
            },
            Some((s, q)) => {
                p = q;
                s
            },
        };
        match lift_value(b, p, t, ci, d) {
            None => {
                proof {
                    lemma_entries_prefix(b@, pos as nat, *t, *ci, d as nat, n as nat, (k + 1) as nat);
                }
                return None;
            },
            Some((v, q)) => {
                let ghost before = out@;
                out.push((key, v));
                p = q;
                proof {
                    assert(entry_models(out@) =~= entry_models(before).push((key@, model_of(v))));
                }
            },
        }
        k = k + 1;
    }
    Some((out, p))
}

} // verus!

verus! {

/// Deserialises a whole buffer as a value of type `t`. Every byte must
/// belong to the value.
pub fn lift(b: &[u8], t: &Type, ci: &ComponentInterface) -> (r: Result<Value, CodecError>)
    requires
        ci.wf(),
    ensures
        !resolves(*t, *ci) ==> r == Err::<Value, CodecError>(CodecError::UnresolvedReference),
        resolves(*t, *ci) ==> match decode(b@, 0, *t, *ci, MAX_NESTING as nat) {
            Some((m, p)) => if p == b@.len() {
                r matches Ok(v) && model_of(v) == m
            } else {
                r == Err::<Value, CodecError>(CodecError::MalformedBuffer)
            },
            None => r == Err::<Value, CodecError>(CodecError::MalformedBuffer),
        },
        r matches Ok(v) ==> b@ == encode(model_of(v)) && conforms(
            model_of(v),
            *t,
            *ci,
            MAX_NESTING as nat,
        ),
{
    if !ci.type_resolves(t) {
        return Err(CodecError::UnresolvedReference);
    }
    match lift_value(b, 0, t, ci, MAX_NESTING) {
        Some((v, q)) => if q == b.len() {
            proof {
                lemma_decode_sound(b@, 0, *t, *ci, MAX_NESTING as nat);
                assert(b@.subrange(0, q as int) =~= b@);
            }
            Ok(v)
        } else {
            Err(CodecError::MalformedBuffer)
        },
        None => Err(CodecError::MalformedBuffer),
    }
}

} // verus!

verus! {

/// Lifting what `lower` produced gives the value back: for every value `m`
/// that `lower` accepts as type `t`, decoding its encoding consumes exactly
/// the whole buffer and yields `m`.
pub proof fn lemma_lift_of_lower(m: ValueModel, t: Type, ci: ComponentInterface)
    requires
        conforms(m, t, ci, MAX_NESTING as nat),
    ensures
        decode(encode(m), 0, t, ci, MAX_NESTING as nat) == Some((m, encode(m).len())),
{
    lemma_round_trip(m, t, ci, MAX_NESTING as nat, Seq::empty(), Seq::empty());
    assert(Seq::<u8>::empty() + encode(m) + Seq::<u8>::empty() =~= encode(m));
}

/// The width of the fixed-size field that the encoding of a type starts
/// with: the scalar itself, a presence tag, or a 4-byte length, count or
/// variant index. Records start with their first field and have none.
pub open spec fn header_width(t: Type) -> nat {
    match t {
        Type::Int8 | Type::UInt8 | Type::Boolean | Type::Optional(_) => 1,
        Type::Int16 | Type::UInt16 => 2,
        Type::Int32 | Type::UInt32 | Type::Float32 | Type::String | Type::Enum(_)
        | Type::Error(_) | Type::Sequence(_) | Type::StringMap(_) => 4,
        Type::Int64 | Type::UInt64 | Type::Float64 | Type::Object(_) => 8,
        Type::Record(_) => 0,
    }
}

/// A buffer shorter than the leading fixed-size field of a type never
/// decodes as that type, so `lift` reports it as malformed.
pub proof fn lemma_truncated_header(b: Seq<u8>, t: Type, ci: ComponentInterface, d: nat)
    requires
        b.len() < header_width(t),
    ensures
        decode(b, 0, t, ci, d) is None,
{
}

/// A string whose declared length runs past the end of the buffer never
/// decodes.
pub proof fn lemma_truncated_string(b: Seq<u8>, pos: nat)
    requires
        pos + 4 <= b.len(),
        pos + 4 + le_value(b.subrange(pos as int, (pos + 4) as int)) > b.len(),
    ensures
        decode_string(b, pos) is None,
{
}

} // verus!

verus! {

/// A buffer cut short anywhere inside a valid encoding never decodes to a
/// whole value, so `lift` reports it as malformed.
pub proof fn lemma_truncated_encoding(m: ValueModel, t: Type, ci: ComponentInterface, k: int)
    requires
        conforms(m, t, ci, MAX_NESTING as nat),
        0 <= k < encode(m).len(),
    ensures
        !(decode(encode(m).take(k), 0, t, ci, MAX_NESTING as nat) matches Some((_, p)) && p == k),
{
    let e = encode(m);
    let pre = e.take(k);
    let rest = e.skip(k);
    if decode(pre, 0, t, ci, MAX_NESTING as nat) is Some {
        lemma_decode_extend(pre, rest, 0, t, ci, MAX_NESTING as nat);
        assert(pre + rest =~= e);
        lemma_lift_of_lower(m, t, ci);
    }
}

} // verus!

verus! {

/// A sequence comes back with the same elements in the same order.
pub proof fn lemma_sequence_order(items: Seq<ValueModel>, t: Type, ci: ComponentInterface)
    requires
        conforms(ValueModel::Sequence(items), Type::Sequence(Box::new(t)), ci, MAX_NESTING as nat),
    ensures
        ({
            let e = encode(ValueModel::Sequence(items));
            decode(e, 0, Type::Sequence(Box::new(t)), ci, MAX_NESTING as nat) matches Some(
                (ValueModel::Sequence(back), p),
            ) && p == e.len() && back == items
        }),
{
    lemma_lift_of_lower(ValueModel::Sequence(items), Type::Sequence(Box::new(t)), ci);
}

/// A map comes back with the same set of key/value pairs.
pub proof fn lemma_map_pairs(es: Seq<(Seq<char>, ValueModel)>, t: Type, ci: ComponentInterface)
    requires
        conforms(ValueModel::StringMap(es), Type::StringMap(Box::new(t)), ci, MAX_NESTING as nat),
    ensures
        ({
            let e = encode(ValueModel::StringMap(es));
            decode(e, 0, Type::StringMap(Box::new(t)), ci, MAX_NESTING as nat) matches Some(
                (ValueModel::StringMap(back), p),
            ) && p == e.len() && back.to_set() == es.to_set()
        }),
{
    lemma_lift_of_lower(ValueModel::StringMap(es), Type::StringMap(Box::new(t)), ci);
}

} // verus!
