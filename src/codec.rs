use vstd::prelude::*;
use vstd::utf8::{encode_utf8, decode_utf8, valid_utf8};
use crate::types::Type;
use crate::interface::{
    ComponentInterface, Field, record_named, enum_named, error_named, record_names, enum_names,
    error_names, object_names,
};
use crate::wire::{le_bytes, le_value, pow256};
use crate::value::{
    ValueModel, from_twos, twos, encode, encode_list, encode_entries, string_bytes, fits_u32,
    conforms, conforms_fields, conforms_all, conforms_entries,
};

verus! {

/// The number held by the `w` bytes at `pos`, if they are there.
pub open spec fn read_uint(b: Seq<u8>, pos: nat, w: nat) -> Option<nat> {
    if pos + w <= b.len() {
        Some(le_value(b.subrange(pos as int, (pos + w) as int)))
    } else {
        None
    }
}

/// A string at `pos`: a 4-byte length, then that many bytes of valid UTF-8.
pub open spec fn decode_string(b: Seq<u8>, pos: nat) -> Option<(Seq<char>, nat)> {
    match read_uint(b, pos, 4) {
        Some(n) => if pos + 4 + n <= b.len() && valid_utf8(
            b.subrange((pos + 4) as int, (pos + 4 + n) as int),
        ) {
            Some((decode_utf8(b.subrange((pos + 4) as int, (pos + 4 + n) as int)), pos + 4 + n))
        } else {
            None
        },
        None => None,
    }
}

/// Reads a value of type `t` at `pos`, nesting at most `d` composites deep.
/// Gives the value and the position just after it, or nothing where the
/// bytes are truncated or invalid.
pub open spec fn decode(b: Seq<u8>, pos: nat, t: Type, ci: ComponentInterface, d: nat) -> Option<
    (ValueModel, nat),
>
    decreases d, 0nat, 0nat,
{
    match t {
        Type::Int8 => match read_uint(b, pos, 1) {
            Some(v) => Some((ValueModel::Int8(from_twos(v, 1) as i8), pos + 1)),
            None => None,
        },
        Type::UInt8 => match read_uint(b, pos, 1) {
            Some(v) => Some((ValueModel::UInt8(v as u8), pos + 1)),
            None => None,
        },
        Type::Int16 => match read_uint(b, pos, 2) {
            Some(v) => Some((ValueModel::Int16(from_twos(v, 2) as i16), pos + 2)),
            None => None,
        },
        Type::UInt16 => match read_uint(b, pos, 2) {
            Some(v) => Some((ValueModel::UInt16(v as u16), pos + 2)),
            None => None,
        },
        Type::Int32 => match read_uint(b, pos, 4) {
            Some(v) => Some((ValueModel::Int32(from_twos(v, 4) as i32), pos + 4)),
            None => None,
        },
        Type::UInt32 => match read_uint(b, pos, 4) {
            Some(v) => Some((ValueModel::UInt32(v as u32), pos + 4)),
            None => None,
        },
        Type::Int64 => match read_uint(b, pos, 8) {
            Some(v) => Some((ValueModel::Int64(from_twos(v, 8) as i64), pos + 8)),
            None => None,
        },
        Type::UInt64 => match read_uint(b, pos, 8) {
            Some(v) => Some((ValueModel::UInt64(v as u64), pos + 8)),
            None => None,
        },
        Type::Float32 => match read_uint(b, pos, 4) {
            Some(v) => Some((ValueModel::Float32(v as u32), pos + 4)),
            None => None,
        },
        Type::Float64 => match read_uint(b, pos, 8) {
            Some(v) => Some((ValueModel::Float64(v as u64), pos + 8)),
            None => None,
        },
        Type::Boolean => match read_uint(b, pos, 1) {
            Some(v) => if v == 0 {
                Some((ValueModel::Boolean(false), pos + 1))
            } else if v == 1 {
                Some((ValueModel::Boolean(true), pos + 1))
            } else {
                None
            },
            None => None,
        },
        Type::String => match decode_string(b, pos) {
            Some((s, p)) => Some((ValueModel::String(s), p)),
            None => None,
        },
        Type::Object(n) => if object_names(ci.objects@).contains(n@) {
            match read_uint(b, pos, 8) {
                Some(v) => Some((ValueModel::Object(v as u64), pos + 8)),
                None => None,
            }
        } else {
            None
        },
        Type::Record(n) => if d > 0 && record_names(ci.records@).contains(n@) {
            match decode_fields(b, pos, record_named(ci, n@).fields@, ci, (d - 1) as nat) {
                Some((fs, p)) => Some((ValueModel::Record(fs), p)),
                None => None,
            }
        } else {
            None
        },
        Type::Enum(n) => if d > 0 && enum_names(ci.enums@).contains(n@) {
            match read_uint(b, pos, 4) {
                Some(i) => if i < enum_named(ci, n@).variants@.len() {
                    match decode_fields(
                        b,
                        pos + 4,
                        enum_named(ci, n@).variants@[i as int].fields@,
                        ci,
                        (d - 1) as nat,
                    ) {
                        Some((fs, p)) => Some((ValueModel::Enum(i as u32, fs), p)),
                        None => None,
                    }
                } else {
                    None
                },
                None => None,
            }
        } else {
            None
        },
        Type::Error(n) => if d > 0 && error_names(ci.errors@).contains(n@) {
            match read_uint(b, pos, 4) {
                Some(i) => if i < error_named(ci, n@).variants@.len() {
                    match decode_fields(
                        b,
                        pos + 4,
                        error_named(ci, n@).variants@[i as int].fields@,
                        ci,
                        (d - 1) as nat,
                    ) {
                        Some((fs, p)) => Some((ValueModel::Error(i as u32, fs), p)),
                        None => None,
                    }
                } else {
                    None
                },
                None => None,
            }
        } else {
            None
        },
        Type::Optional(x) => if d > 0 {
            match read_uint(b, pos, 1) {
                Some(tag) => if tag == 0 {
                    Some((ValueModel::Optional(None), pos + 1))
                } else if tag == 1 {
                    match decode(b, pos + 1, *x, ci, (d - 1) as nat) {
                        Some((v, p)) => Some((ValueModel::Optional(Some(Box::new(v))), p)),
                        None => None,
                    }
                } else {
                    None
                },
                None => None,
            }
        } else {
            None
        },
        Type::Sequence(x) => if d > 0 {
            match read_uint(b, pos, 4) {
                Some(n) => match decode_repeat(b, pos + 4, *x, ci, (d - 1) as nat, n) {
                    Some((items, p)) => Some((ValueModel::Sequence(items), p)),
                    None => None,
                },
                None => None,
            }
        } else {
            None
        },
        Type::StringMap(x) => if d > 0 {
            match read_uint(b, pos, 4) {
                Some(n) => match decode_entries(b, pos + 4, *x, ci, (d - 1) as nat, n) {
                    Some((es, p)) => Some((ValueModel::StringMap(es), p)),
                    None => None,
                },
                None => None,
            }
        } else {
            None
        },
    }
}

/// Reads one value for each field, in order, from `pos` on.
pub open spec fn decode_fields(
    b: Seq<u8>,
    pos: nat,
    fs: Seq<Field>,
    ci: ComponentInterface,
    d: nat,
) -> Option<(Seq<ValueModel>, nat)>
    decreases d, 1nat, fs.len(),
{
    if fs.len() == 0 {
        Some((Seq::empty(), pos))
    } else {
        match decode_fields(b, pos, fs.drop_last(), ci, d) {
            Some((vs, p)) => match decode(b, p, fs.last().type_, ci, d) {
                Some((v, q)) => Some((vs.push(v), q)),
                None => None,
            },
            None => None,
        }
    }
}

/// Reads `n` values of type `t`, in order, from `pos` on.
pub open spec fn decode_repeat(
    b: Seq<u8>,
    pos: nat,
    t: Type,
    ci: ComponentInterface,
    d: nat,
    n: nat,
) -> Option<(Seq<ValueModel>, nat)>
    decreases d, 1nat, n,
{
    if n == 0 {
        Some((Seq::empty(), pos))
    } else {
        match decode_repeat(b, pos, t, ci, d, (n - 1) as nat) {
            Some((vs, p)) => match decode(b, p, t, ci, d) {
                Some((v, q)) => Some((vs.push(v), q)),
                None => None,
            },
            None => None,
        }
    }
}

/// Reads `n` map entries, each a string key then a value of type `t`.
pub open spec fn decode_entries(
    b: Seq<u8>,
    pos: nat,
    t: Type,
    ci: ComponentInterface,
    d: nat,
    n: nat,
) -> Option<(Seq<(Seq<char>, ValueModel)>, nat)>
    decreases d, 1nat, n,
{
    if n == 0 {
        Some((Seq::empty(), pos))
    } else {
        match decode_entries(b, pos, t, ci, d, (n - 1) as nat) {
            Some((es, p)) => match decode_string(b, p) {
                Some((k, after_key)) => match decode(b, after_key, t, ci, d) {
                    Some((v, q)) => Some((es.push((k, v)), q)),
                    None => None,
                },
                None => None,
            },
            None => None,
        }
    }
}

} // verus!

verus! {

broadcast use vstd::utf8::encode_utf8_valid_utf8, vstd::utf8::encode_utf8_decode_utf8;

pub proof fn lemma_read_window(pre: Seq<u8>, x: nat, w: nat, rest: Seq<u8>)
    requires
        x < pow256(w),
    ensures
        read_uint(pre + le_bytes(x, w) + rest, pre.len(), w) == Some(x),
        le_bytes(x, w).len() == w,
{
    crate::wire::lemma_le_round_trip(x, w);
    let b = pre + le_bytes(x, w) + rest;
    assert(b.subrange(pre.len() as int, (pre.len() + w) as int) =~= le_bytes(x, w));
}

pub proof fn lemma_read_byte(b: Seq<u8>, pos: nat)
    requires
        pos < b.len(),
    ensures
        read_uint(b, pos, 1) == Some(b[pos as int] as nat),
{
    let s = b.subrange(pos as int, (pos + 1) as int);
    assert(s.drop_last() =~= Seq::<u8>::empty());
    assert(pow256(0) == 1);
    assert(le_value(Seq::<u8>::empty()) == 0);
    assert(le_value(s) == le_value(s.drop_last()) + s.last() as nat * pow256(0));
}

pub proof fn lemma_twos_round_trip(x: int, w: nat)
    requires
        w > 0,
        -(pow256(w) / 2) <= x < pow256(w) / 2,
    ensures
        twos(x, w) < pow256(w),
        from_twos(twos(x, w), w) == x,
{
    crate::wire::lemma_pow256_positive(w);
    assert(pow256(w) == 256 * pow256((w - 1) as nat));
    crate::wire::lemma_pow256_positive((w - 1) as nat);
}

pub proof fn lemma_string_round_trip(pre: Seq<u8>, s: Seq<char>, rest: Seq<u8>)
    requires
        fits_u32(encode_utf8(s).len()),
    ensures
        decode_string(pre + string_bytes(s) + rest, pre.len()) == Some(
            (s, pre.len() + string_bytes(s).len()),
        ),
        string_bytes(s).len() == 4 + encode_utf8(s).len(),
{
    let u = encode_utf8(s);
    crate::wire::lemma_pow256_values();
    let b = pre + string_bytes(s) + rest;
    assert(b =~= pre + le_bytes(u.len(), 4) + (u + rest));
    lemma_read_window(pre, u.len(), 4, u + rest);
    assert(b.subrange((pre.len() + 4) as int, (pre.len() + 4 + u.len()) as int) =~= u);
}

/// Decoding an encoded value gives the value back and stops right after it,
/// whatever precedes or follows it.
#[verifier::rlimit(100)]
#[verifier::spinoff_prover]
pub proof fn lemma_round_trip(
    m: ValueModel,
    t: Type,
    ci: ComponentInterface,
    d: nat,
    pre: Seq<u8>,
    rest: Seq<u8>,
)
    requires
        conforms(m, t, ci, d),
    ensures
        decode(pre + encode(m) + rest, pre.len(), t, ci, d) == Some(
            (m, pre.len() + encode(m).len()),
        ),
    decreases m,
{
    let b = pre + encode(m) + rest;
    let pos = pre.len();
    crate::wire::lemma_pow256_values();
    match (t, m) {
        (Type::Int8, ValueModel::Int8(x)) => {
            lemma_twos_round_trip(x as int, 1);
            lemma_read_window(pre, twos(x as int, 1), 1, rest);
        },
        (Type::UInt8, ValueModel::UInt8(x)) => {
            lemma_read_window(pre, x as nat, 1, rest);
        },
        (Type::Int16, ValueModel::Int16(x)) => {
            lemma_twos_round_trip(x as int, 2);
            lemma_read_window(pre, twos(x as int, 2), 2, rest);
        },
        (Type::UInt16, ValueModel::UInt16(x)) => {
            lemma_read_window(pre, x as nat, 2, rest);
        },
        (Type::Int32, ValueModel::Int32(x)) => {
            lemma_twos_round_trip(x as int, 4);
            lemma_read_window(pre, twos(x as int, 4), 4, rest);
        },
        (Type::UInt32, ValueModel::UInt32(x)) => {
            lemma_read_window(pre, x as nat, 4, rest);
        },
        (Type::Int64, ValueModel::Int64(x)) => {
            lemma_twos_round_trip(x as int, 8);
            lemma_read_window(pre, twos(x as int, 8), 8, rest);
        },
        (Type::UInt64, ValueModel::UInt64(x)) => {
            lemma_read_window(pre, x as nat, 8, rest);
        },
        (Type::Float32, ValueModel::Float32(x)) => {
            lemma_read_window(pre, x as nat, 4, rest);
        },
        (Type::Float64, ValueModel::Float64(x)) => {
            lemma_read_window(pre, x as nat, 8, rest);
        },
        (Type::Object(_), ValueModel::Object(x)) => {
            lemma_read_window(pre, x as nat, 8, rest);
        },
        (Type::Boolean, ValueModel::Boolean(x)) => {
            lemma_read_byte(b, pos);
        },
        (Type::String, ValueModel::String(s)) => {
            lemma_string_round_trip(pre, s, rest);
        },
        (Type::Record(n), ValueModel::Record(fs)) => {
            lemma_round_trip_fields(
                fs,
                record_named(ci, n@).fields@,
                ci,
                (d - 1) as nat,
                pre,
                rest,
            );
        },
        (Type::Enum(n), ValueModel::Enum(i, fs)) => {
            let l = encode_list(fs);
            assert(b =~= pre + le_bytes(i as nat, 4) + (l + rest));
            lemma_read_window(pre, i as nat, 4, l + rest);
            assert(b =~= (pre + le_bytes(i as nat, 4)) + l + rest);
            lemma_round_trip_fields(
                fs,
                enum_named(ci, n@).variants@[i as int].fields@,
                ci,
                (d - 1) as nat,
                pre + le_bytes(i as nat, 4),
                rest,
            );
        },
        (Type::Error(n), ValueModel::Error(i, fs)) => {
            let l = encode_list(fs);
            assert(b =~= pre + le_bytes(i as nat, 4) + (l + rest));
            lemma_read_window(pre, i as nat, 4, l + rest);
            assert(b =~= (pre + le_bytes(i as nat, 4)) + l + rest);
            lemma_round_trip_fields(
                fs,
                error_named(ci, n@).variants@[i as int].fields@,
                ci,
                (d - 1) as nat,
                pre + le_bytes(i as nat, 4),
                rest,
            );
        },
        (Type::Optional(x), ValueModel::Optional(o)) => {
            lemma_read_byte(b, pos);
            match o {
                None => {},
                Some(v) => {
                    assert(b =~= (pre + seq![1u8]) + encode(*v) + rest);
                    lemma_round_trip(*v, *x, ci, (d - 1) as nat, pre + seq![1u8], rest);
                },
            }
        },
        (Type::Sequence(x), ValueModel::Sequence(items)) => {
            let l = encode_list(items);
            assert(b =~= pre + le_bytes(items.len(), 4) + (l + rest));
            lemma_read_window(pre, items.len(), 4, l + rest);
            assert(b =~= (pre + le_bytes(items.len(), 4)) + l + rest);
            lemma_round_trip_all(
                items,
                *x,
                ci,
                (d - 1) as nat,
                pre + le_bytes(items.len(), 4),
                rest,
            );
        },
        (Type::StringMap(x), ValueModel::StringMap(es)) => {
            let l = encode_entries(es);
            assert(b =~= pre + le_bytes(es.len(), 4) + (l + rest));
            lemma_read_window(pre, es.len(), 4, l + rest);
            assert(b =~= (pre + le_bytes(es.len(), 4)) + l + rest);
            lemma_round_trip_entries(
                es,
                *x,
                ci,
                (d - 1) as nat,
                pre + le_bytes(es.len(), 4),
                rest,
            );
        },
        _ => {},
    }
}

#[verifier::rlimit(50)]
#[verifier::spinoff_prover]
pub proof fn lemma_round_trip_fields(
    ms: Seq<ValueModel>,
    fs: Seq<Field>,
    ci: ComponentInterface,
    d: nat,
    pre: Seq<u8>,
    rest: Seq<u8>,
)
    requires
        conforms_fields(ms, fs, ci, d),
    ensures
        decode_fields(pre + encode_list(ms) + rest, pre.len(), fs, ci, d) == Some(
            (ms, pre.len() + encode_list(ms).len()),
        ),
    decreases ms,
{
    if ms.len() == 0 {
        assert(ms =~= Seq::<ValueModel>::empty());
    } else {
        let l0 = encode_list(ms.drop_last());
        let e = encode(ms.last());
        let b = pre + encode_list(ms) + rest;
        assert(b =~= pre + l0 + (e + rest));
        lemma_round_trip_fields(ms.drop_last(), fs.drop_last(), ci, d, pre, e + rest);
        assert(b =~= (pre + l0) + e + rest);
        lemma_round_trip(ms.last(), fs.last().type_, ci, d, pre + l0, rest);
        assert(ms.drop_last().push(ms.last()) =~= ms);
    }
}

#[verifier::rlimit(50)]
#[verifier::spinoff_prover]
pub proof fn lemma_round_trip_all(
    ms: Seq<ValueModel>,
    t: Type,
    ci: ComponentInterface,
    d: nat,
    pre: Seq<u8>,
    rest: Seq<u8>,
)
    requires
        conforms_all(ms, t, ci, d),
    ensures
        decode_repeat(pre + encode_list(ms) + rest, pre.len(), t, ci, d, ms.len()) == Some(
            (ms, pre.len() + encode_list(ms).len()),
        ),
    decreases ms,
{
    if ms.len() == 0 {
        assert(ms =~= Seq::<ValueModel>::empty());
    } else {
        let l0 = encode_list(ms.drop_last());
        let e = encode(ms.last());
        let b = pre + encode_list(ms) + rest;
        assert(b =~= pre + l0 + (e + rest));
        lemma_round_trip_all(ms.drop_last(), t, ci, d, pre, e + rest);
        assert(b =~= (pre + l0) + e + rest);
        lemma_round_trip(ms.last(), t, ci, d, pre + l0, rest);
        assert(ms.drop_last().push(ms.last()) =~= ms);
    }
}

#[verifier::rlimit(50)]
#[verifier::spinoff_prover]
pub proof fn lemma_round_trip_entries(
    es: Seq<(Seq<char>, ValueModel)>,
    t: Type,
    ci: ComponentInterface,
    d: nat,
    pre: Seq<u8>,
    rest: Seq<u8>,
)
    requires
        conforms_entries(es, t, ci, d),
    ensures
        decode_entries(pre + encode_entries(es) + rest, pre.len(), t, ci, d, es.len()) == Some(
            (es, pre.len() + encode_entries(es).len()),
        ),
    decreases es,
{
    if es.len() == 0 {
        assert(es =~= Seq::<(Seq<char>, ValueModel)>::empty());
    } else {
        let l0 = encode_entries(es.drop_last());
        let k = string_bytes(es.last().0);
        let e = encode(es.last().1);
        let b = pre + encode_entries(es) + rest;
        assert(b =~= pre + l0 + (k + e + rest));
        lemma_round_trip_entries(es.drop_last(), t, ci, d, pre, k + e + rest);
        assert(b =~= (pre + l0) + k + (e + rest));
        lemma_string_round_trip(pre + l0, es.last().0, e + rest);
        assert(b =~= (pre + l0 + k) + e + rest);
        lemma_round_trip(es.last().1, t, ci, d, pre + l0 + k, rest);
        assert(es.drop_last().push(es.last()) =~= es);
    }
}

} // verus!

verus! {

pub proof fn lemma_fields_prefix(b: Seq<u8>, pos: nat, fs: Seq<Field>, ci: ComponentInterface, d: nat, k: int)
    requires
        0 <= k <= fs.len(),
        decode_fields(b, pos, fs.take(k), ci, d) is None,
    ensures
        decode_fields(b, pos, fs, ci, d) is None,
    decreases fs.len(),
{
    if k == fs.len() {
        assert(fs.take(k) =~= fs);
    } else {
        assert(fs.drop_last().take(k) =~= fs.take(k));
        lemma_fields_prefix(b, pos, fs.drop_last(), ci, d, k);
    }
}

pub proof fn lemma_repeat_prefix(b: Seq<u8>, pos: nat, t: Type, ci: ComponentInterface, d: nat, n: nat, k: nat)
    requires
        k <= n,
        decode_repeat(b, pos, t, ci, d, k) is None,
    ensures
        decode_repeat(b, pos, t, ci, d, n) is None,
    decreases n,
{
    if k < n {
        lemma_repeat_prefix(b, pos, t, ci, d, (n - 1) as nat, k);
    }
}

pub proof fn lemma_entries_prefix(b: Seq<u8>, pos: nat, t: Type, ci: ComponentInterface, d: nat, n: nat, k: nat)
    requires
        k <= n,
        decode_entries(b, pos, t, ci, d, k) is None,
    ensures
        decode_entries(b, pos, t, ci, d, n) is None,
    decreases n,
{
    if k < n {
        lemma_entries_prefix(b, pos, t, ci, d, (n - 1) as nat, k);
    }
}

} // verus!

verus! {

pub proof fn lemma_read_extend(b: Seq<u8>, s: Seq<u8>, pos: nat, w: nat)
    ensures
        read_uint(b, pos, w) is Some ==> read_uint(b + s, pos, w) == read_uint(b, pos, w),
{
    if pos + w <= b.len() {
        assert((b + s).subrange(pos as int, (pos + w) as int) =~= b.subrange(
            pos as int,
            (pos + w) as int,
        ));
    }
}

pub proof fn lemma_string_extend(b: Seq<u8>, s: Seq<u8>, pos: nat)
    ensures
        decode_string(b, pos) is Some ==> decode_string(b + s, pos) == decode_string(b, pos),
{
    lemma_read_extend(b, s, pos, 4);
    if decode_string(b, pos) is Some {
        let n = read_uint(b, pos, 4)->Some_0;
        assert((b + s).subrange((pos + 4) as int, (pos + 4 + n) as int) =~= b.subrange(
            (pos + 4) as int,
            (pos + 4 + n) as int,
        ));
    }
}

/// What decodes from a buffer decodes the same way when more bytes follow.
#[verifier::rlimit(100)]
#[verifier::spinoff_prover]
pub proof fn lemma_decode_extend(b: Seq<u8>, s: Seq<u8>, pos: nat, t: Type, ci: ComponentInterface, d: nat)
    requires
        decode(b, pos, t, ci, d) is Some,
    ensures
        decode(b + s, pos, t, ci, d) == decode(b, pos, t, ci, d),
    decreases d, 0nat, 0nat,
{
    lemma_read_extend(b, s, pos, 1);
    lemma_read_extend(b, s, pos, 2);
    lemma_read_extend(b, s, pos, 4);
    lemma_read_extend(b, s, pos, 8);
    lemma_string_extend(b, s, pos);
    match t {
        Type::Record(n) => {
            lemma_fields_extend(b, s, pos, record_named(ci, n@).fields@, ci, (d - 1) as nat);
        },
        Type::Enum(n) => {
            let i = read_uint(b, pos, 4)->Some_0;
            lemma_fields_extend(
                b,
                s,
                pos + 4,
                enum_named(ci, n@).variants@[i as int].fields@,
                ci,
                (d - 1) as nat,
            );
        },
        Type::Error(n) => {
            let i = read_uint(b, pos, 4)->Some_0;
            lemma_fields_extend(
                b,
                s,
                pos + 4,
                error_named(ci, n@).variants@[i as int].fields@,
                ci,
                (d - 1) as nat,
            );
        },
        Type::Optional(x) => {
            if read_uint(b, pos, 1) == Some(1nat) {
                lemma_decode_extend(b, s, pos + 1, *x, ci, (d - 1) as nat);
            }
        },
        Type::Sequence(x) => {
            let n = read_uint(b, pos, 4)->Some_0;
            lemma_repeat_extend(b, s, pos + 4, *x, ci, (d - 1) as nat, n);
        },
        Type::StringMap(x) => {
            let n = read_uint(b, pos, 4)->Some_0;
            lemma_entries_extend(b, s, pos + 4, *x, ci, (d - 1) as nat, n);
        },
        _ => {},
    }
}

pub proof fn lemma_fields_extend(b: Seq<u8>, s: Seq<u8>, pos: nat, fs: Seq<Field>, ci: ComponentInterface, d: nat)
    requires
        decode_fields(b, pos, fs, ci, d) is Some,
    ensures
        decode_fields(b + s, pos, fs, ci, d) == decode_fields(b, pos, fs, ci, d),
    decreases d, 1nat, fs.len(),
{
    if fs.len() > 0 {
        lemma_fields_extend(b, s, pos, fs.drop_last(), ci, d);
        let p = decode_fields(b, pos, fs.drop_last(), ci, d)->Some_0.1;
        lemma_decode_extend(b, s, p, fs.last().type_, ci, d);
    }
}

pub proof fn lemma_repeat_extend(b: Seq<u8>, s: Seq<u8>, pos: nat, t: Type, ci: ComponentInterface, d: nat, n: nat)
    requires
        decode_repeat(b, pos, t, ci, d, n) is Some,
    ensures
        decode_repeat(b + s, pos, t, ci, d, n) == decode_repeat(b, pos, t, ci, d, n),
    decreases d, 1nat, n,
{
    if n > 0 {
        lemma_repeat_extend(b, s, pos, t, ci, d, (n - 1) as nat);
        let p = decode_repeat(b, pos, t, ci, d, (n - 1) as nat)->Some_0.1;
        lemma_decode_extend(b, s, p, t, ci, d);
    }
}

pub proof fn lemma_entries_extend(b: Seq<u8>, s: Seq<u8>, pos: nat, t: Type, ci: ComponentInterface, d: nat, n: nat)
    requires
        decode_entries(b, pos, t, ci, d, n) is Some,
    ensures
        decode_entries(b + s, pos, t, ci, d, n) == decode_entries(b, pos, t, ci, d, n),
    decreases d, 1nat, n,
{
    if n > 0 {
        lemma_entries_extend(b, s, pos, t, ci, d, (n - 1) as nat);
        let p = decode_entries(b, pos, t, ci, d, (n - 1) as nat)->Some_0.1;
        lemma_string_extend(b, s, p);
        let after_key = decode_string(b, p)->Some_0.1;
        lemma_decode_extend(b, s, after_key, t, ci, d);
    }
}

} // verus!

verus! {

pub proof fn lemma_read_sound(b: Seq<u8>, pos: nat, w: nat)
    requires
        read_uint(b, pos, w) is Some,
    ensures
        pos + w <= b.len(),
        read_uint(b, pos, w)->Some_0 < pow256(w),
        b.subrange(pos as int, (pos + w) as int) == le_bytes(read_uint(b, pos, w)->Some_0, w),
{
    let bs = b.subrange(pos as int, (pos + w) as int);
    crate::wire::lemma_le_value_bound(bs);
    crate::wire::lemma_le_bytes_of_value(bs);
}

pub proof fn lemma_string_sound(b: Seq<u8>, pos: nat)
    requires
        decode_string(b, pos) is Some,
    ensures
        ({
            let (s, p) = decode_string(b, pos)->Some_0;
            pos <= p <= b.len() && fits_u32(encode_utf8(s).len()) && b.subrange(pos as int, p as int)
                == string_bytes(s)
        }),
{
    crate::wire::lemma_pow256_values();
    lemma_read_sound(b, pos, 4);
    let n = read_uint(b, pos, 4)->Some_0;
    let u = b.subrange((pos + 4) as int, (pos + 4 + n) as int);
    vstd::utf8::decode_utf8_encode_utf8(u);
    assert(b.subrange(pos as int, (pos + 4 + n) as int) =~= b.subrange(pos as int, (pos + 4) as int)
        + u);
}

pub proof fn lemma_twos_of_read(v: nat, w: nat)
    requires
        w > 0,
        v < pow256(w),
    ensures
        -(pow256(w) / 2) <= from_twos(v, w) < pow256(w) / 2,
        twos(from_twos(v, w), w) == v,
{
    crate::wire::lemma_pow256_positive((w - 1) as nat);
    assert(pow256(w) == 256 * pow256((w - 1) as nat));
}

/// Whatever decodes is a value of the type, and re-encoding it gives back
/// exactly the bytes that were read.
#[verifier::rlimit(100)]
#[verifier::spinoff_prover]
pub proof fn lemma_decode_sound(b: Seq<u8>, pos: nat, t: Type, ci: ComponentInterface, d: nat)
    requires
        pos <= b.len(),
        decode(b, pos, t, ci, d) is Some,
    ensures
        ({
            let (m, p) = decode(b, pos, t, ci, d)->Some_0;
            pos <= p <= b.len() && conforms(m, t, ci, d) && b.subrange(pos as int, p as int)
                == encode(m)
        }),
    decreases d, 0nat, 0nat,
{
    crate::wire::lemma_pow256_values();
    let (m, p) = decode(b, pos, t, ci, d)->Some_0;
    match t {
        Type::Int8 => {
            lemma_read_sound(b, pos, 1);
            lemma_twos_of_read(read_uint(b, pos, 1)->Some_0, 1);
        },
        Type::Int16 => {
            lemma_read_sound(b, pos, 2);
            lemma_twos_of_read(read_uint(b, pos, 2)->Some_0, 2);
        },
        Type::Int32 => {
            lemma_read_sound(b, pos, 4);
            lemma_twos_of_read(read_uint(b, pos, 4)->Some_0, 4);
        },
        Type::Int64 => {
            lemma_read_sound(b, pos, 8);
            lemma_twos_of_read(read_uint(b, pos, 8)->Some_0, 8);
        },
        Type::UInt8 | Type::Boolean => {
            lemma_read_sound(b, pos, 1);
            lemma_read_byte(b, pos);
            assert(b.subrange(pos as int, (pos + 1) as int) =~= seq![b[pos as int]]);
        },
        Type::UInt16 => {
            lemma_read_sound(b, pos, 2);
        },
        Type::UInt32 | Type::Float32 => {
            lemma_read_sound(b, pos, 4);
        },
        Type::UInt64 | Type::Float64 | Type::Object(_) => {
            lemma_read_sound(b, pos, 8);
        },
        Type::String => {
            lemma_string_sound(b, pos);
        },
        Type::Record(n) => {
            lemma_fields_sound(b, pos, record_named(ci, n@).fields@, ci, (d - 1) as nat);
        },
        Type::Enum(n) => {
            lemma_read_sound(b, pos, 4);
            let i = read_uint(b, pos, 4)->Some_0;
            let fs = enum_named(ci, n@).variants@[i as int].fields@;
            lemma_fields_sound(b, pos + 4, fs, ci, (d - 1) as nat);
            assert(b.subrange(pos as int, p as int) =~= b.subrange(pos as int, (pos + 4) as int)
                + b.subrange((pos + 4) as int, p as int));
        },
        Type::Error(n) => {
            lemma_read_sound(b, pos, 4);
            let i = read_uint(b, pos, 4)->Some_0;
            let fs = error_named(ci, n@).variants@[i as int].fields@;
            lemma_fields_sound(b, pos + 4, fs, ci, (d - 1) as nat);
            assert(b.subrange(pos as int, p as int) =~= b.subrange(pos as int, (pos + 4) as int)
                + b.subrange((pos + 4) as int, p as int));
        },
        Type::Optional(x) => {
            lemma_read_sound(b, pos, 1);
            lemma_read_byte(b, pos);
            if b[pos as int] == 0 {
                assert(b.subrange(pos as int, (pos + 1) as int) =~= seq![0u8]);
            } else {
                lemma_decode_sound(b, pos + 1, *x, ci, (d - 1) as nat);
                assert(b.subrange(pos as int, p as int) =~= seq![1u8] + b.subrange(
                    (pos + 1) as int,
                    p as int,
                ));
            }
        },
        Type::Sequence(x) => {
            lemma_read_sound(b, pos, 4);
            let n = read_uint(b, pos, 4)->Some_0;
            lemma_repeat_sound(b, pos + 4, *x, ci, (d - 1) as nat, n);
            assert(b.subrange(pos as int, p as int) =~= b.subrange(pos as int, (pos + 4) as int)
                + b.subrange((pos + 4) as int, p as int));
        },
        Type::StringMap(x) => {
            lemma_read_sound(b, pos, 4);
            let n = read_uint(b, pos, 4)->Some_0;
            lemma_entries_sound(b, pos + 4, *x, ci, (d - 1) as nat, n);
            assert(b.subrange(pos as int, p as int) =~= b.subrange(pos as int, (pos + 4) as int)
                + b.subrange((pos + 4) as int, p as int));
        },
    }
}

pub proof fn lemma_fields_sound(b: Seq<u8>, pos: nat, fs: Seq<Field>, ci: ComponentInterface, d: nat)
    requires
        pos <= b.len(),
        decode_fields(b, pos, fs, ci, d) is Some,
    ensures
        ({
            let (ms, p) = decode_fields(b, pos, fs, ci, d)->Some_0;
            pos <= p <= b.len() && conforms_fields(ms, fs, ci, d) && b.subrange(pos as int, p as int)
                == encode_list(ms)
        }),
    decreases d, 1nat, fs.len(),
{
    if fs.len() == 0 {
        assert(b.subrange(pos as int, pos as int) =~= Seq::<u8>::empty());
    } else {
        lemma_fields_sound(b, pos, fs.drop_last(), ci, d);
        let (vs, p1) = decode_fields(b, pos, fs.drop_last(), ci, d)->Some_0;
        lemma_decode_sound(b, p1, fs.last().type_, ci, d);
        let (v, q) = decode(b, p1, fs.last().type_, ci, d)->Some_0;
        let ms = vs.push(v);
        assert(ms.drop_last() =~= vs);
        assert(b.subrange(pos as int, q as int) =~= b.subrange(pos as int, p1 as int) + b.subrange(
            p1 as int,
            q as int,
        ));
    }
}

pub proof fn lemma_repeat_sound(b: Seq<u8>, pos: nat, t: Type, ci: ComponentInterface, d: nat, n: nat)
    requires
        pos <= b.len(),
        decode_repeat(b, pos, t, ci, d, n) is Some,
    ensures
        ({
            let (ms, p) = decode_repeat(b, pos, t, ci, d, n)->Some_0;
            pos <= p <= b.len() && ms.len() == n && conforms_all(ms, t, ci, d) && b.subrange(
                pos as int,
                p as int,
            ) == encode_list(ms)
        }),
    decreases d, 1nat, n,
{
    if n == 0 {
        assert(b.subrange(pos as int, pos as int) =~= Seq::<u8>::empty());
    } else {
        lemma_repeat_sound(b, pos, t, ci, d, (n - 1) as nat);
        let (vs, p1) = decode_repeat(b, pos, t, ci, d, (n - 1) as nat)->Some_0;
        lemma_decode_sound(b, p1, t, ci, d);
        let (v, q) = decode(b, p1, t, ci, d)->Some_0;
        let ms = vs.push(v);
        assert(ms.drop_last() =~= vs);
        assert(b.subrange(pos as int, q as int) =~= b.subrange(pos as int, p1 as int) + b.subrange(
            p1 as int,
            q as int,
        ));
    }
}

pub proof fn lemma_entries_sound(b: Seq<u8>, pos: nat, t: Type, ci: ComponentInterface, d: nat, n: nat)
    requires
        pos <= b.len(),
        decode_entries(b, pos, t, ci, d, n) is Some,
    ensures
        ({
            let (es, p) = decode_entries(b, pos, t, ci, d, n)->Some_0;
            pos <= p <= b.len() && es.len() == n && conforms_entries(es, t, ci, d) && b.subrange(
                pos as int,
                p as int,
            ) == encode_entries(es)
        }),
    decreases d, 1nat, n,
{
    if n == 0 {
        assert(b.subrange(pos as int, pos as int) =~= Seq::<u8>::empty());
    } else {
        lemma_entries_sound(b, pos, t, ci, d, (n - 1) as nat);
        let (es0, p1) = decode_entries(b, pos, t, ci, d, (n - 1) as nat)->Some_0;
        lemma_string_sound(b, p1);
        let (k, after_key) = decode_string(b, p1)->Some_0;
        lemma_decode_sound(b, after_key, t, ci, d);
        let (v, q) = decode(b, after_key, t, ci, d)->Some_0;
        let es = es0.push((k, v));
        assert(es.drop_last() =~= es0);
        assert(b.subrange(pos as int, q as int) =~= b.subrange(pos as int, p1 as int) + b.subrange(
            p1 as int,
            after_key as int,
        ) + b.subrange(after_key as int, q as int));
    }
}

} // verus!
