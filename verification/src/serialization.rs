use vstd::prelude::*;
use vstd::string::StringSliceAdditionalSpecFns;
use crate::varint::{u32_of_i32, varint_bytes, write_varint};

verus! {

/// 256^k, the weight of the k-th byte.
pub open spec fn pow256(k: nat) -> nat
    decreases k,
{
    if k == 0 {
        1
    } else {
        256 * pow256((k - 1) as nat)
    }
}

/// The `n`-byte big-endian encoding of `v` (high bytes beyond `n` dropped).
pub open spec fn be_bytes(v: nat, n: nat) -> Seq<u8> {
    Seq::new(n, |i: int| ((v / pow256((n - 1 - i) as nat)) % 256) as u8)
}

/// The value read back from big-endian bytes.
pub open spec fn be_value(s: Seq<u8>) -> nat
    decreases s.len(),
{
    if s.len() == 0 {
        0
    } else {
        (be_value(s.drop_last()) * 256 + s.last()) as nat
    }
}

/// The 16-bit unsigned value that stands for `v` in two's complement.
pub open spec fn u16_of_i16(v: i16) -> nat {
    if v >= 0 {
        v as nat
    } else {
        (v + 0x1_0000) as nat
    }
}

/// The 64-bit unsigned value that stands for `v` in two's complement.
pub open spec fn u64_of_i64(v: i64) -> nat {
    if v >= 0 {
        v as nat
    } else {
        (v + 0x1_0000_0000_0000_0000) as nat
    }
}

pub proof fn lemma_pow256_positive(k: nat)
    ensures
        pow256(k) >= 1,
    decreases k,
{
    if k > 0 {
        lemma_pow256_positive((k - 1) as nat);
    }
}

pub proof fn lemma_pow256_16()
    ensures
        pow256(1) == 0x100,
        pow256(2) == 0x1_0000,
        pow256(4) == 0x1_0000_0000,
        pow256(8) == 0x1_0000_0000_0000_0000,
        pow256(14) == 0x1_0000_0000_0000_0000_0000_0000_0000,
        pow256(15) == 0x100_0000_0000_0000_0000_0000_0000_0000,
        pow256(16) == 0x1_0000_0000_0000_0000_0000_0000_0000_0000,
{
    assert(pow256(0) == 1);
    assert(pow256(1) == 0x100);
    assert(pow256(2) == 0x1_0000);
    assert(pow256(3) == 0x100_0000);
    assert(pow256(4) == 0x1_0000_0000);
    assert(pow256(5) == 0x100_0000_0000);
    assert(pow256(6) == 0x1_0000_0000_0000);
    assert(pow256(7) == 0x100_0000_0000_0000);
    assert(pow256(8) == 0x1_0000_0000_0000_0000);
    assert(pow256(9) == 0x100_0000_0000_0000_0000);
    assert(pow256(10) == 0x1_0000_0000_0000_0000_0000);
    assert(pow256(11) == 0x100_0000_0000_0000_0000_0000);
    assert(pow256(12) == 0x1_0000_0000_0000_0000_0000_0000);
    assert(pow256(13) == 0x100_0000_0000_0000_0000_0000_0000);
    assert(pow256(14) == 0x1_0000_0000_0000_0000_0000_0000_0000);
    assert(pow256(15) == 0x100_0000_0000_0000_0000_0000_0000_0000);
    assert(pow256(16) == 0x1_0000_0000_0000_0000_0000_0000_0000_0000);
}

/// Exec computation of `pow256` within `u128`.
fn pow256_exec(k: usize) -> (r: u128)
    requires
        k <= 15,
    ensures
        r as nat == pow256(k as nat),
{
    let mut i: usize = 0;
    let mut acc: u128 = 1;
    while i < k
        invariant
            i <= k <= 15,
            acc as nat == pow256(i as nat),
        decreases k - i,
    {
        proof {
            lemma_pow256_16();
            lemma_pow256_mono(i as nat, 14);
        }
        acc = acc * 256;
        i = i + 1;
    }
    acc
}

proof fn lemma_pow256_mono(a: nat, b: nat)
    requires
        a <= b,
    ensures
        pow256(a) <= pow256(b),
    decreases b,
{
    if a < b {
        lemma_pow256_mono(a, (b - 1) as nat);
        lemma_pow256_positive((b - 1) as nat);
    }
}

/// Append the `n`-byte big-endian encoding of `v` to `out`.
pub fn be_encode(v: u128, n: usize, out: &mut Vec<u8>)
    requires
        1 <= n <= 16,
        (v as nat) < pow256(n as nat),
    ensures
        final(out)@ == old(out)@ + be_bytes(v as nat, n as nat),
{
    let mut i: usize = 0;
    let mut d: u128 = pow256_exec(n - 1);
    while i < n
        invariant
            i <= n <= 16,
            i < n ==> d as nat == pow256((n - 1 - i) as nat),
            out@ == old(out)@ + be_bytes(v as nat, n as nat).take(i as int),
        decreases n - i,
    {
        proof {
            lemma_pow256_positive((n - 1 - i) as nat);
            assert(be_bytes(v as nat, n as nat)[i as int] == ((v as nat / pow256(
                (n - 1 - i) as nat,
            )) % 256) as u8);
        }
        out.push(((v / d) % 256) as u8);
        proof {
            assert(out@ =~= old(out)@ + be_bytes(v as nat, n as nat).take(i + 1));
        }
        if i + 2 <= n {
            proof {
                assert(pow256((n - 1 - i) as nat) == 256 * pow256((n - 2 - i) as nat));
                assert((256 * pow256((n - 2 - i) as nat)) / 256 == pow256((n - 2 - i) as nat)) by {
                    vstd::arithmetic::div_mod::lemma_div_multiples_vanish(
                        pow256((n - 2 - i) as nat) as int,
                        256,
                    );
                }
            }
            d = d / 256;
        }
        i = i + 1;
    }
    proof {
        assert(be_bytes(v as nat, n as nat).take(n as int) =~= be_bytes(v as nat, n as nat));
    }
}

/// Read `n` big-endian bytes starting at `start` as an unsigned value.
pub fn be_decode(data: &[u8], start: usize, n: usize) -> (r: u128)
    requires
        n <= 16,
        start + n <= data@.len(),
    ensures
        r as nat == be_value(data@.subrange(start as int, start + n)),
{
    let ghost s = data@.subrange(start as int, start + n);
    let total = data.len();
    let mut i: usize = 0;
    let mut acc: u128 = 0;
    proof {
        lemma_pow256_16();
    }
    while i < n
        invariant
            i <= n <= 16,
            start + n <= data@.len(),
            data@.len() == total,
            s == data@.subrange(start as int, start + n),
            acc as nat == be_value(s.take(i as int)),
            (acc as nat) < pow256(i as nat),
            pow256(16) == 0x1_0000_0000_0000_0000_0000_0000_0000_0000,
        decreases n - i,
    {
        proof {
            assert(s.take(i + 1).drop_last() =~= s.take(i as int));
            assert(s.take(i + 1).last() == s[i as int]);
            assert(s[i as int] == data@[start + i]);
            lemma_pow256_mono((i + 1) as nat, 16);
            assert(pow256((i + 1) as nat) == 256 * pow256(i as nat));
            assert(acc as nat * 256 + (data@[start + i]) < 256 * pow256(i as nat))
                by (nonlinear_arith)
                requires
                    (acc as nat) < pow256(i as nat),
                    data@[start + i] < 256;
        }
        acc = acc * 256 + (data[start + i] as u128);
        i = i + 1;
    }
    proof {
        assert(s.take(n as int) =~= s);
    }
    acc
}

/// A sequence of at most `k` bytes reads back below 256^k.
pub proof fn lemma_be_value_bound(s: Seq<u8>, k: nat)
    requires
        s.len() <= k,
    ensures
        be_value(s) < pow256(k),
    decreases s.len(),
{
    if s.len() == 0 {
        lemma_pow256_positive(k);
    } else {
        lemma_be_value_bound(s.drop_last(), (k - 1) as nat);
        assert(pow256(k) == 256 * pow256((k - 1) as nat));
        assert(be_value(s.drop_last()) * 256 + s.last() < 256 * pow256((k - 1) as nat))
            by (nonlinear_arith)
            requires
                be_value(s.drop_last()) < pow256((k - 1) as nat),
                s.last() < 256;
    }
}

/// `be_value` reads back what `be_bytes` wrote.
pub proof fn lemma_be_round_trip(v: nat, n: nat)
    requires
        v < pow256(n),
    ensures
        be_value(be_bytes(v, n)) == v,
    decreases n,
{
    if n == 0 {
        assert(be_bytes(v, 0) =~= Seq::<u8>::empty());
    } else {
        assert(pow256(n) == 256 * pow256((n - 1) as nat));
        assert(v / 256 < pow256((n - 1) as nat)) by {
            vstd::arithmetic::div_mod::lemma_fundamental_div_mod(v as int, 256);
        }
        lemma_be_round_trip(v / 256, (n - 1) as nat);
        assert(be_bytes(v, n).drop_last() =~= be_bytes(v / 256, (n - 1) as nat)) by {
            assert forall|i: int| 0 <= i < n - 1 implies be_bytes(v, n)[i] == be_bytes(
                v / 256,
                (n - 1) as nat,
            )[i] by {
                assert(pow256((n - 1 - i) as nat) == 256 * pow256((n - 2 - i) as nat));
                assert(v / (256 * pow256((n - 2 - i) as nat)) == (v / 256) / pow256(
                    (n - 2 - i) as nat,
                )) by {
                    lemma_pow256_positive((n - 2 - i) as nat);
                    vstd::arithmetic::div_mod::lemma_div_denominator(
                        v as int,
                        256,
                        pow256((n - 2 - i) as nat) as int,
                    );
                }
            }
        }
        assert(be_bytes(v, n).last() == (v % 256) as u8) by {
            assert(pow256(0) == 1);
            assert(be_bytes(v, n)[n - 1] == ((v / pow256(0)) % 256) as u8);
            assert(v / 1 == v) by {
                vstd::arithmetic::div_mod::lemma_div_basics(v as int);
            }
        }
        assert(be_value(be_bytes(v, n)) == (v / 256) * 256 + v % 256);
        assert((v / 256) * 256 + v % 256 == v) by {
            vstd::arithmetic::div_mod::lemma_fundamental_div_mod(v as int, 256);
        }
    }
}

/// The `n`-byte little-endian encoding of `v` (high bytes beyond `n` dropped).
pub open spec fn le_bytes(v: nat, n: nat) -> Seq<u8> {
    Seq::new(n, |i: int| ((v / pow256(i as nat)) % 256) as u8)
}

/// The value read back from little-endian bytes.
pub open spec fn le_value(s: Seq<u8>) -> nat
    decreases s.len(),
{
    if s.len() == 0 {
        0
    } else {
        (s[0] + 256 * le_value(s.drop_first())) as nat
    }
}

/// A sequence of at most `k` bytes reads back below 256^k.
pub proof fn lemma_le_value_bound(s: Seq<u8>, k: nat)
    requires
        s.len() <= k,
    ensures
        le_value(s) < pow256(k),
    decreases s.len(),
{
    if s.len() == 0 {
        lemma_pow256_positive(k);
    } else {
        lemma_le_value_bound(s.drop_first(), (k - 1) as nat);
        assert(pow256(k) == 256 * pow256((k - 1) as nat));
        assert(s[0] + 256 * le_value(s.drop_first()) < 256 * pow256((k - 1) as nat))
            by (nonlinear_arith)
            requires
                le_value(s.drop_first()) < pow256((k - 1) as nat),
                s[0] < 256;
    }
}

/// `le_value` reads back what `le_bytes` wrote.
pub proof fn lemma_le_round_trip(v: nat, n: nat)
    requires
        v < pow256(n),
    ensures
        le_value(le_bytes(v, n)) == v,
    decreases n,
{
    if n == 0 {
        assert(le_bytes(v, 0) =~= Seq::<u8>::empty());
    } else {
        assert(pow256(n) == 256 * pow256((n - 1) as nat));
        assert(v / 256 < pow256((n - 1) as nat)) by {
            vstd::arithmetic::div_mod::lemma_fundamental_div_mod(v as int, 256);
        }
        lemma_le_round_trip(v / 256, (n - 1) as nat);
        assert(le_bytes(v, n).drop_first() =~= le_bytes(v / 256, (n - 1) as nat)) by {
            assert forall|i: int| 0 <= i < n - 1 implies le_bytes(v, n).drop_first()[i]
                == #[trigger] le_bytes(v / 256, (n - 1) as nat)[i] by {
                assert(le_bytes(v, n).drop_first()[i] == le_bytes(v, n)[i + 1]);
                assert(pow256((i + 1) as nat) == 256 * pow256(i as nat));
                assert(v / (256 * pow256(i as nat)) == (v / 256) / pow256(i as nat)) by {
                    lemma_pow256_positive(i as nat);
                    vstd::arithmetic::div_mod::lemma_div_denominator(
                        v as int,
                        256,
                        pow256(i as nat) as int,
                    );
                }
            }
        }
        assert(le_bytes(v, n)[0] == (v % 256) as u8) by {
            assert(pow256(0) == 1);
            assert(v / 1 == v) by {
                vstd::arithmetic::div_mod::lemma_div_basics(v as int);
            }
        }
        assert(le_value(le_bytes(v, n)) == (v % 256) + 256 * (v / 256));
        assert((v / 256) * 256 + v % 256 == v) by {
            vstd::arithmetic::div_mod::lemma_fundamental_div_mod(v as int, 256);
        }
    }
}

/// Append the `n`-byte little-endian encoding of `v` to `out`.
pub fn le_encode(v: u128, n: usize, out: &mut Vec<u8>)
    requires
        1 <= n <= 16,
    ensures
        final(out)@ == old(out)@ + le_bytes(v as nat, n as nat),
{
    let mut i: usize = 0;
    let mut rest: u128 = v;
    proof {
        assert(pow256(0) == 1);
        assert((v as nat) / 1 == v as nat) by {
            vstd::arithmetic::div_mod::lemma_div_basics(v as int);
        }
    }
    while i < n
        invariant
            i <= n <= 16,
            rest as nat == (v as nat) / pow256(i as nat),
            out@ == old(out)@ + le_bytes(v as nat, n as nat).take(i as int),
        decreases n - i,
    {
        proof {
            assert(pow256(0) == 1);
            lemma_pow256_positive(i as nat);
            assert(le_bytes(v as nat, n as nat)[i as int] == (((v as nat) / pow256(i as nat))
                % 256) as u8);
            assert(pow256((i + 1) as nat) == 256 * pow256(i as nat));
            assert((v as nat) / pow256((i + 1) as nat) == ((v as nat) / pow256(i as nat)) / 256)
                by {
                vstd::arithmetic::div_mod::lemma_div_denominator(
                    v as int,
                    pow256(i as nat) as int,
                    256,
                );
            }
        }
        out.push((rest % 256) as u8);
        rest = rest / 256;
        i = i + 1;
        proof {
            assert(out@ =~= old(out)@ + le_bytes(v as nat, n as nat).take(i as int));
        }
    }
    proof {
        assert(le_bytes(v as nat, n as nat).take(n as int) =~= le_bytes(v as nat, n as nat));
    }
}

/// Read `n` little-endian bytes starting at `start` as an unsigned value.
pub fn le_decode(data: &[u8], start: usize, n: usize) -> (r: u128)
    requires
        n <= 16,
        start + n <= data@.len(),
    ensures
        r as nat == le_value(data@.subrange(start as int, start + n)),
{
    let ghost s = data@.subrange(start as int, start + n);
    let total = data.len();
    let mut i: usize = n;
    let mut acc: u128 = 0;
    proof {
        lemma_pow256_16();
        assert(s.skip(n as int) =~= Seq::<u8>::empty());
    }
    while i > 0
        invariant
            i <= n <= 16,
            start + n <= data@.len(),
            data@.len() == total,
            s == data@.subrange(start as int, start + n),
            acc as nat == le_value(s.skip(i as int)),
            (acc as nat) < pow256((n - i) as nat),
            pow256(16) == 0x1_0000_0000_0000_0000_0000_0000_0000_0000,
        decreases i,
    {
        i = i - 1;
        proof {
            assert(s.skip(i as int).drop_first() =~= s.skip(i + 1));
            assert(s.skip(i as int)[0] == s[i as int]);
            assert(s[i as int] == data@[start + i]);
            lemma_pow256_mono((n - i) as nat, 16);
            assert(pow256((n - i) as nat) == 256 * pow256((n - i - 1) as nat));
            assert((data@[start + i]) + 256 * (acc as nat) < 256 * pow256((n - i - 1) as nat))
                by (nonlinear_arith)
                requires
                    (acc as nat) < pow256((n - i - 1) as nat),
                    data@[start + i] < 256;
        }
        acc = (data[start + i] as u128) + 256 * acc;
    }
    proof {
        assert(s.skip(0) =~= s);
    }
    acc
}

/// A varint as a standalone byte vector.
#[must_use]
pub fn varint(value: i32) -> (r: Vec<u8>)
    ensures
        r@ == varint_bytes(u32_of_i32(value)),
        1 <= r@.len() <= 5,
{
    write_varint(value)
}

/// A boolean as one byte: 1 for true, 0 for false.
#[must_use]
pub fn boolean(input: bool) -> (r: [u8; 1])
    ensures
        r@ == seq![if input { 1u8 } else { 0u8 }],
{
    let r = if input {
        [0x01u8]
    } else {
        [0x00u8]
    };
    proof {
        assert(r@ =~= seq![if input { 1u8 } else { 0u8 }]);
    }
    r
}

/// A signed 16-bit value as two big-endian bytes.
#[must_use]
pub fn short(input: i16) -> (r: Vec<u8>)
    ensures
        r@ == be_bytes(u16_of_i16(input), 2),
{
    let bits: u16 = if input >= 0 {
        input as u16
    } else {
        ((input as i32) + 0x1_0000) as u16
    };
    let mut out: Vec<u8> = Vec::new();
    proof {
        lemma_pow256_16();
    }
    be_encode(bits as u128, 2, &mut out);
    out
}

/// An unsigned 16-bit value as two big-endian bytes.
#[must_use]
pub fn unsigned_short(input: u16) -> (r: Vec<u8>)
    ensures
        r@ == be_bytes(input as nat, 2),
{
    let mut out: Vec<u8> = Vec::new();
    proof {
        lemma_pow256_16();
    }
    be_encode(input as u128, 2, &mut out);
    out
}

/// A signed 32-bit value as four big-endian bytes.
#[must_use]
pub fn int32(input: i32) -> (r: Vec<u8>)
    ensures
        r@ == be_bytes(u32_of_i32(input), 4),
{
    let bits: u32 = if input >= 0 {
        input as u32
    } else {
        ((input as i64) + 0x1_0000_0000) as u32
    };
    let mut out: Vec<u8> = Vec::new();
    proof {
        lemma_pow256_16();
        lemma_pow256_mono(4, 16);
    }
    be_encode(bits as u128, 4, &mut out);
    out
}

/// A signed 64-bit value as eight big-endian bytes.
#[must_use]
pub fn long(input: i64) -> (r: Vec<u8>)
    ensures
        r@ == be_bytes(u64_of_i64(input), 8),
{
    let bits: u64 = if input >= 0 {
        input as u64
    } else {
        ((input as i128) + 0x1_0000_0000_0000_0000) as u64
    };
    let mut out: Vec<u8> = Vec::new();
    proof {
        lemma_pow256_16();
        lemma_pow256_mono(8, 16);
    }
    be_encode(bits as u128, 8, &mut out);
    out
}

/// An unsigned 64-bit value as eight big-endian bytes.
#[must_use]
pub fn unsigned_long(input: u64) -> (r: Vec<u8>)
    ensures
        r@ == be_bytes(input as nat, 8),
{
    let mut out: Vec<u8> = Vec::new();
    proof {
        lemma_pow256_16();
        lemma_pow256_mono(8, 16);
    }
    be_encode(input as u128, 8, &mut out);
    out
}

/// A 128-bit value (a UUID) as sixteen big-endian bytes.
#[must_use]
pub fn uuid(input: &u128) -> (r: Vec<u8>)
    ensures
        r@ == be_bytes(*input as nat, 16),
{
    let mut out: Vec<u8> = Vec::new();
    proof {
        lemma_pow256_16();
    }
    be_encode(*input, 16, &mut out);
    out
}

/// The first word of a fixed bit set as eight big-endian bytes; an empty
/// set is all zeroes. The eight-byte output holds at most one word.
#[must_use]
pub fn bitset(input: &[u64]) -> (r: Vec<u8>)
    requires
        input@.len() <= 1,
    ensures
        input@.len() == 1 ==> r@ == be_bytes(input@[0] as nat, 8),
        input@.len() == 0 ==> r@ == seq![0u8, 0u8, 0u8, 0u8, 0u8, 0u8, 0u8, 0u8],
{
    let mut out: Vec<u8> = Vec::new();
    proof {
        lemma_pow256_16();
        lemma_pow256_mono(8, 16);
    }
    if input.len() == 1 {
        be_encode(input[0] as u128, 8, &mut out);
    } else {
        be_encode(0, 8, &mut out);
        proof {
            assert(out@ =~= seq![0u8, 0u8, 0u8, 0u8, 0u8, 0u8, 0u8, 0u8]) by {
                assert forall|i: int| 0 <= i < 8 implies be_bytes(0, 8)[i] == 0u8 by {
                    lemma_pow256_positive((7 - i) as nat);
                }
            }
        }
    }
    out
}

/// A string as a varint byte length followed by its UTF-8 bytes.
#[must_use]
pub fn try_string(input: &str) -> (r: Option<Vec<u8>>)
    ensures
        match r {
            Some(v) => input.spec_bytes().len() <= 0x7fff_ffff && v@ == varint_bytes(
                input.spec_bytes().len(),
            ) + input.spec_bytes(),
            None => input.spec_bytes().len() > 0x7fff_ffff,
        },
{
    let bytes = input.as_bytes();
    if bytes.len() > 0x7fff_ffff {
        return None;
    }
    let mut out = varint(bytes.len() as i32);
    out.extend_from_slice(bytes);
    proof {
        assert(u32_of_i32(input.spec_bytes().len() as i32) == input.spec_bytes().len());
    }
    Some(out)
}

/// A byte array prefixed with a varint count.
#[must_use]
pub fn prefixed_array(data: Vec<u8>, len: i32) -> (r: Vec<u8>)
    ensures
        r@ == varint_bytes(u32_of_i32(len)) + data@,
{
    let mut out = varint(len);
    let mut data = data;
    out.append(&mut data);
    out
}

} // verus!
