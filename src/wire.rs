use vstd::prelude::*;
use vstd::arithmetic::div_mod::{lemma_mod_breakdown, lemma_div_denominator};

verus! {

/// 256 to the power `w`: the number of values that `w` bytes can hold.
pub open spec fn pow256(w: nat) -> nat
    decreases w,
{
    if w == 0 {
        1
    } else {
        256 * pow256((w - 1) as nat)
    }
}

/// The `w` low bytes of `x`, least significant first.
pub open spec fn le_bytes(x: nat, w: nat) -> Seq<u8>
    decreases w,
{
    if w == 0 {
        Seq::empty()
    } else {
        le_bytes(x, (w - 1) as nat).push(((x / pow256((w - 1) as nat)) % 256) as u8)
    }
}

/// The number that little-endian bytes denote.
pub open spec fn le_value(b: Seq<u8>) -> nat
    decreases b.len(),
{
    if b.len() == 0 {
        0
    } else {
        le_value(b.drop_last()) + b.last() as nat * pow256((b.len() - 1) as nat)
    }
}

pub proof fn lemma_pow256_positive(w: nat)
    ensures
        pow256(w) > 0,
        w <= 8 ==> pow256(w) <= 0x1_0000_0000_0000_0000,
    decreases w,
{
    if w > 0 {
        lemma_pow256_positive((w - 1) as nat);
    }
    if w <= 8 {
        reveal_with_fuel(pow256, 9);
    }
}

pub proof fn lemma_le_bytes_len(x: nat, w: nat)
    ensures
        le_bytes(x, w).len() == w,
    decreases w,
{
    if w > 0 {
        lemma_le_bytes_len(x, (w - 1) as nat);
    }
}

/// Reading back `w` written bytes gives the number modulo `256^w`.
pub proof fn lemma_le_value_of_bytes(x: nat, w: nat)
    ensures
        le_value(le_bytes(x, w)) == x % pow256(w),
    decreases w,
{
    if w == 0 {
    } else {
        let p = pow256((w - 1) as nat);
        lemma_pow256_positive((w - 1) as nat);
        lemma_le_value_of_bytes(x, (w - 1) as nat);
        lemma_le_bytes_len(x, (w - 1) as nat);
        let b = le_bytes(x, w);
        assert(b.drop_last() =~= le_bytes(x, (w - 1) as nat));
        lemma_mod_breakdown(x as int, p as int, 256);
        assert(pow256(w) == p * 256) by (nonlinear_arith)
            requires pow256(w) == 256 * p;
        let d = ((x / p) % 256) as u8;
        assert(d as nat == (x / p) % 256);
        assert(b.last() == d);
        assert(le_value(b) == le_value(b.drop_last()) + d as nat * p);
        assert(d as nat * p == p * ((x / p) % 256)) by (nonlinear_arith)
            requires d as nat == (x / p) % 256;
    }
}

pub proof fn lemma_pow256_mono(a: nat, b: nat)
    requires
        a <= b,
    ensures
        pow256(a) <= pow256(b),
    decreases b,
{
    if a < b {
        lemma_pow256_mono(a, (b - 1) as nat);
        lemma_pow256_positive((b - 1) as nat);
    }
}

/// A number that fits in `w` bytes is read back unchanged.
pub proof fn lemma_le_round_trip(x: nat, w: nat)
    requires
        x < pow256(w),
    ensures
        le_value(le_bytes(x, w)) == x,
        le_bytes(x, w).len() == w,
{
    lemma_le_value_of_bytes(x, w);
    lemma_le_bytes_len(x, w);
    vstd::arithmetic::div_mod::lemma_small_mod(x, pow256(w));
}

/// Appends the `w` low bytes of `x`, least significant first.
pub fn put_le(out: &mut Vec<u8>, x: u64, w: usize)
    requires
        w <= 8,
    ensures
        final(out)@ == old(out)@ + le_bytes(x as nat, w as nat),
{
    let ghost start = old(out)@;
    let mut cur: u64 = x;
    let mut i: usize = 0;
    proof {
        assert(pow256(0) == 1);
        assert(out@ =~= start + le_bytes(x as nat, 0));
    }
    while i < w
        invariant
            i <= w <= 8,
            out@ == start + le_bytes(x as nat, i as nat),
            cur as nat == x as nat / pow256(i as nat),
        decreases w - i,
    {
        proof {
            lemma_pow256_positive(i as nat);
            lemma_div_denominator(x as int, pow256(i as nat) as int, 256);
            assert(pow256((i + 1) as nat) == pow256(i as nat) * 256) by (nonlinear_arith)
                requires pow256((i + 1) as nat) == 256 * pow256(i as nat);
        }
        out.push((cur % 256) as u8);
        cur = cur / 256;
        i = i + 1;
        proof {
            assert(out@ =~= start + le_bytes(x as nat, i as nat));
        }
    }
}

/// The number held by the `w` bytes of `b` from `pos` on, little-endian.
pub fn read_le(b: &[u8], pos: usize, w: usize) -> (r: u64)
    requires
        w <= 8,
        pos + w <= b@.len(),
    ensures
        r as nat == le_value(b@.subrange(pos as int, pos + w)),
{
    let n = b.len();
    let mut acc: u128 = 0;
    let mut mul: u128 = 1;
    let mut i: usize = 0;
    proof {
        lemma_pow256_positive(w as nat);
    }
    while i < w
        invariant
            i <= w <= 8,
            pos + w <= b@.len(),
            n == b@.len(),
            acc as nat == le_value(b@.subrange(pos as int, pos + i)),
            mul as nat == pow256(i as nat),
            pow256(w as nat) <= 0x1_0000_0000_0000_0000,
            acc < mul,
        decreases w - i,
    {
        let ghost s = b@.subrange(pos as int, pos + i + 1);
        proof {
            lemma_pow256_positive((i + 1) as nat);
            lemma_pow256_mono((i + 1) as nat, w as nat);
            assert(pow256((i + 1) as nat) == 256 * pow256(i as nat));
            assert(s.drop_last() =~= b@.subrange(pos as int, pos + i));
            let byte = b@[pos + i] as int;
            assert(acc + byte * mul < 256 * mul) by (nonlinear_arith)
                requires acc < mul, byte < 256, 0 <= byte;
            assert(byte * mul <= 255 * mul) by (nonlinear_arith)
                requires byte < 256, 0 <= byte, 0 <= mul;
            assert(256 * mul <= 0x1_0000_0000_0000_0000);
            assert((b@[pos + i] as u128) * mul < 0x1_0000_0000_0000_0000);
        }
        acc = acc + (b[pos + i] as u128) * mul;
        mul = mul * 256;
        i = i + 1;
    }
    proof {
        assert(b@.subrange(pos as int, pos + i) =~= b@.subrange(pos as int, pos + w));
    }
    proof {
        lemma_pow256_mono(i as nat, w as nat);
    }
    acc as u64
}

} // verus!

verus! {

pub proof fn lemma_pow256_values()
    ensures
        pow256(1) == 256,
        pow256(2) == 0x1_0000,
        pow256(4) == 0x1_0000_0000,
        pow256(8) == 0x1_0000_0000_0000_0000,
{
    reveal_with_fuel(pow256, 9);
}

/// Little-endian bytes denote a number below `256^len`.
pub proof fn lemma_le_value_bound(b: Seq<u8>)
    ensures
        le_value(b) < pow256(b.len()),
    decreases b.len(),
{
    if b.len() > 0 {
        let p = pow256((b.len() - 1) as nat);
        lemma_le_value_bound(b.drop_last());
        let x = b.last() as int;
        assert(le_value(b.drop_last()) + x * p < 256 * p) by (nonlinear_arith)
            requires le_value(b.drop_last()) < p, x <= 255, 0 <= x;
    }
}

} // verus!

verus! {

/// Bytes of one length with one value are the same bytes.
pub proof fn lemma_le_value_injective(a: Seq<u8>, b: Seq<u8>)
    requires
        a.len() == b.len(),
        le_value(a) == le_value(b),
    ensures
        a == b,
    decreases a.len(),
{
    if a.len() > 0 {
        let p = pow256((a.len() - 1) as nat);
        lemma_pow256_positive((a.len() - 1) as nat);
        lemma_le_value_bound(a.drop_last());
        lemma_le_value_bound(b.drop_last());
        let la = le_value(a.drop_last()) as int;
        let lb = le_value(b.drop_last()) as int;
        let x = a.last() as int;
        let y = b.last() as int;
        assert(x == y) by (nonlinear_arith)
            requires
                la + x * p == lb + y * p,
                0 <= la < p,
                0 <= lb < p,
                0 <= x,
                0 <= y,
        ;
        lemma_le_value_injective(a.drop_last(), b.drop_last());
        assert(a =~= a.drop_last().push(a.last()));
        assert(b =~= b.drop_last().push(b.last()));
    }
}

/// Writing back the number that bytes denote gives those bytes.
pub proof fn lemma_le_bytes_of_value(bs: Seq<u8>)
    ensures
        le_bytes(le_value(bs), bs.len()) == bs,
{
    lemma_le_value_bound(bs);
    lemma_le_round_trip(le_value(bs), bs.len());
    lemma_le_value_injective(le_bytes(le_value(bs), bs.len()), bs);
}

} // verus!
