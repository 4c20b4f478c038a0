use vstd::prelude::*;

verus! {

/// Errors of the wire codec. `MalformedVarint` is raised on a fifth
/// continuation byte; `UnexpectedEnd` when the input runs out mid-value;
/// `BadFrame` when a frame header carries a negative length.
#[derive(Debug, Clone, Copy, PartialEq, Eq, Structural)]
pub enum DecodeError {
    MalformedVarint,
    UnexpectedEnd,
    BadFrame,
}

/// 128^k, the weight of the k-th base-128 digit.
pub open spec fn pow128(k: nat) -> nat
    decreases k,
{
    if k == 0 {
        1
    } else {
        128 * pow128((k - 1) as nat)
    }
}

/// Little-endian base-128 encoding with a continuation bit in the high bit:
/// the minimal encoding of `v`, one to five bytes for a 32-bit value.
pub open spec fn varint_bytes(v: nat) -> Seq<u8>
    decreases v,
{
    if v < 128 {
        seq![v as u8]
    } else {
        seq![(v % 128 + 128) as u8] + varint_bytes(v / 128)
    }
}

/// The weighted sum of the base-128 digits of `s` (continuation bits stripped).
pub open spec fn varint_value(s: Seq<u8>) -> nat
    decreases s.len(),
{
    if s.len() == 0 {
        0
    } else {
        (s[0] % 128) as nat + 128 * varint_value(s.drop_first())
    }
}

/// Length of the varint that starts `s`: index of the first byte without a
/// continuation bit, plus one. `None` when the first `fuel` bytes (or all of
/// a shorter `s`) carry continuation bits.
pub open spec fn varint_prefix_len(s: Seq<u8>, fuel: nat) -> Option<nat>
    decreases fuel,
{
    if s.len() == 0 || fuel == 0 {
        None
    } else if s[0] < 128 {
        Some(1)
    } else {
        match varint_prefix_len(s.drop_first(), (fuel - 1) as nat) {
            None => None,
            Some(n) => Some(n + 1),
        }
    }
}

/// The 32-bit unsigned value that stands for `v` in two's complement.
pub open spec fn u32_of_i32(v: i32) -> nat {
    if v >= 0 {
        v as nat
    } else {
        (v + 0x1_0000_0000) as nat
    }
}

/// The signed reading of a digit sum truncated to 32 bits.
pub open spec fn i32_of_sum(n: nat) -> i32 {
    if n % 0x1_0000_0000 < 0x8000_0000 {
        (n % 0x1_0000_0000) as i32
    } else {
        (n % 0x1_0000_0000 - 0x1_0000_0000) as i32
    }
}

/// The decoded 32-bit result: the digit sum truncated to 32 bits, reread as signed.
pub open spec fn varint_result(s: Seq<u8>) -> i32 {
    i32_of_sum(varint_value(s))
}

/// What reading a varint from the head of `s` yields: the decoded value and
/// the byte count consumed, or the error.
pub open spec fn spec_read_varint(s: Seq<u8>) -> Result<(i32, nat), DecodeError> {
    match varint_prefix_len(s, 5) {
        Some(n) => Ok((varint_result(s.take(n as int)), n)),
        None => Err(
            if s.len() >= 5 {
                DecodeError::MalformedVarint
            } else {
                DecodeError::UnexpectedEnd
            },
        ),
    }
}

/// Reinterpret a signed 32-bit value as its two's-complement bits.
pub fn u32_from_i32(value: i32) -> (r: u32)
    ensures
        r as nat == u32_of_i32(value),
{
    if value >= 0 {
        value as u32
    } else {
        ((value as i64) + 0x1_0000_0000) as u32
    }
}

/// Reinterpret 32 unsigned bits as a signed value.
pub fn i32_from_u32(bits: u32) -> (r: i32)
    ensures
        r == i32_of_sum(bits as nat),
{
    if bits < 0x8000_0000 {
        bits as i32
    } else {
        ((bits as i64) - 0x1_0000_0000) as i32
    }
}

proof fn lemma_varint_bytes_bounded(v: nat, k: nat)
    requires
        1 <= k,
        v < pow128(k),
    ensures
        1 <= varint_bytes(v).len() <= k,
    decreases k,
{
    if v >= 128 {
        assert(pow128(k) == 128 * pow128((k - 1) as nat));
        assert(v / 128 < pow128((k - 1) as nat)) by {
            vstd::arithmetic::div_mod::lemma_fundamental_div_mod(v as int, 128);
        }
        lemma_varint_bytes_bounded(v / 128, (k - 1) as nat);
    }
}

/// The minimal encoding of a 32-bit value is one to five bytes.
pub proof fn lemma_varint_bytes_len(v: nat)
    requires
        v < 0x1_0000_0000,
    ensures
        1 <= varint_bytes(v).len() <= 5,
{
    lemma_pow128_5();
    lemma_varint_bytes_bounded(v, 5);
}

/// Every byte of the encoding but the last carries a continuation bit,
/// and the last does not.
pub proof fn lemma_varint_bytes_terminated(v: nat)
    ensures
        forall|i: int| 0 <= i < varint_bytes(v).len() - 1 ==> varint_bytes(v)[i] >= 128,
        varint_bytes(v)[varint_bytes(v).len() - 1] < 128,
    decreases v,
{
    if v >= 128 {
        lemma_varint_bytes_terminated(v / 128);
        assert forall|i: int| 0 <= i < varint_bytes(v).len() - 1 implies varint_bytes(v)[i]
            >= 128 by {
            if i > 0 {
                assert(varint_bytes(v)[i] == varint_bytes(v / 128)[i - 1]);
            }
        }
    }
}

/// Decoding the minimal encoding of `v` gives back `v`.
pub proof fn lemma_varint_value_of_bytes(v: nat)
    ensures
        varint_value(varint_bytes(v)) == v,
    decreases v,
{
    if v < 128 {
        assert(varint_bytes(v) == seq![v as u8]);
        assert(varint_bytes(v)[0] == v as u8);
        assert(varint_bytes(v).drop_first() =~= Seq::<u8>::empty());
        assert(varint_value(Seq::<u8>::empty()) == 0);
        assert(varint_value(varint_bytes(v)) == (v as u8 % 128) as nat);
        assert((v as u8 % 128) as nat == v);
    } else {
        lemma_varint_value_of_bytes(v / 128);
        assert(varint_bytes(v).drop_first() =~= varint_bytes(v / 128));
        assert(varint_bytes(v)[0] == (v % 128 + 128) as u8);
        assert((v % 128 + 128) as u8 % 128 == v % 128);
        assert(varint_value(varint_bytes(v)) == (v % 128) as nat + 128 * (v / 128));
        assert((v % 128) as nat + 128 * (v / 128) == v) by {
            vstd::arithmetic::div_mod::lemma_fundamental_div_mod(v as int, 128);
        }
    }
}

/// A parsed varint is one to `fuel` bytes and lies within `s`.
pub proof fn lemma_prefix_len_le(s: Seq<u8>, fuel: nat)
    ensures
        match varint_prefix_len(s, fuel) {
            Some(n) => 1 <= n <= s.len() && n <= fuel,
            None => true,
        },
    decreases fuel,
{
    if s.len() > 0 && fuel > 0 && s[0] >= 128 {
        lemma_prefix_len_le(s.drop_first(), (fuel - 1) as nat);
    }
}

pub proof fn lemma_prefix_len_at(s: Seq<u8>, k: int, fuel: nat)
    requires
        0 <= k < s.len(),
        k < fuel,
        forall|j: int| 0 <= j < k ==> s[j] >= 128,
        s[k] < 128,
    ensures
        varint_prefix_len(s, fuel) == Some((k + 1) as nat),
    decreases k,
{
    if k > 0 {
        lemma_prefix_len_at(s.drop_first(), k - 1, (fuel - 1) as nat);
    }
}

proof fn lemma_prefix_len_none(s: Seq<u8>, fuel: nat)
    requires
        forall|j: int| 0 <= j < s.len() && j < fuel ==> s[j] >= 128,
    ensures
        varint_prefix_len(s, fuel) is None,
    decreases fuel,
{
    if s.len() > 0 && fuel > 0 {
        lemma_prefix_len_none(s.drop_first(), (fuel - 1) as nat);
    }
}

proof fn lemma_varint_value_snoc(s: Seq<u8>, n: int)
    requires
        0 <= n < s.len(),
    ensures
        varint_value(s.take(n + 1)) == varint_value(s.take(n)) + (s[n] % 128) * pow128(n as nat),
    decreases n,
{
    if n == 0 {
        assert(s.take(1)[0] == s[0]);
        assert(s.take(1).drop_first() =~= Seq::<u8>::empty());
        assert(varint_value(Seq::<u8>::empty()) == 0);
        assert(s.take(0) =~= Seq::<u8>::empty());
        assert(varint_value(s.take(1)) == (s[0] % 128) as nat);
        assert(pow128(0) == 1);
        assert((s[n] % 128) * pow128(n as nat) == (s[n] % 128) as nat) by (nonlinear_arith)
            requires
                pow128(n as nat) == 1;
        assert(varint_value(s.take(n + 1)) == varint_value(s.take(n)) + (s[n] % 128) * pow128(
            n as nat,
        ));
    } else {
        lemma_varint_value_snoc(s.drop_first(), n - 1);
        assert(s.take(n + 1).drop_first() =~= s.drop_first().take(n));
        assert(s.take(n).drop_first() =~= s.drop_first().take(n - 1));
        assert(s.take(n + 1)[0] == s[0]);
        assert(s.take(n)[0] == s[0]);
        assert(s.drop_first()[n - 1] == s[n]);
        assert(varint_value(s.take(n + 1)) == (s[0] % 128) as nat + 128 * varint_value(
            s.drop_first().take(n),
        ));
        assert(varint_value(s.take(n)) == (s[0] % 128) as nat + 128 * varint_value(
            s.drop_first().take(n - 1),
        ));
        assert(pow128(n as nat) == 128 * pow128((n - 1) as nat));
        assert(128 * (varint_value(s.drop_first().take(n - 1)) + (s[n] % 128) * pow128(
            (n - 1) as nat,
        )) == 128 * varint_value(s.drop_first().take(n - 1)) + (s[n] % 128) * (128 * pow128(
            (n - 1) as nat,
        ))) by (nonlinear_arith);
        assert(varint_value(s.take(n + 1)) == varint_value(s.take(n)) + (s[n] % 128) * pow128(
            n as nat,
        ));
    }
}

proof fn lemma_pow128_positive(k: nat)
    ensures
        pow128(k) >= 1,
    decreases k,
{
    if k > 0 {
        lemma_pow128_positive((k - 1) as nat);
    }
}

proof fn lemma_pow128_5()
    ensures
        pow128(5) == 0x8_0000_0000,
{
    assert(pow128(0) == 1);
    assert(pow128(1) == 128);
    assert(pow128(2) == 0x4000);
    assert(pow128(3) == 0x20_0000);
    assert(pow128(4) == 0x1000_0000);
    assert(pow128(5) == 0x8_0000_0000);
}

/// Write a value as a varint: the minimal little-endian base-128 encoding.
pub fn write_varint(value: i32) -> (r: Vec<u8>)
    ensures
        r@ == varint_bytes(u32_of_i32(value)),
        1 <= r@.len() <= 5,
{
    proof {
        lemma_varint_bytes_len(u32_of_i32(value));
    }
    let mut out: Vec<u8> = Vec::new();
    let mut v: u32 = u32_from_i32(value);
    loop
        invariant
            varint_bytes(u32_of_i32(value)) == out@ + varint_bytes(v as nat),
        decreases v,
    {
        if v < 128 {
            out.push(v as u8);
            proof {
                assert(out@ =~= varint_bytes(u32_of_i32(value)));
                lemma_varint_bytes_len(u32_of_i32(value));
            }
            return out;
        } else {
            out.push((v % 128 + 128) as u8);
            v = v / 128;
        }
    }
}

/// Read a varint from `data` starting at `start`. On success returns the
/// decoded value and the index just past the varint. Fails with
/// `MalformedVarint` on a fifth continuation byte and with `UnexpectedEnd`
/// when the bytes run out first.
pub fn read_varint(data: &[u8], start: usize) -> (r: Result<(i32, usize), DecodeError>)
    requires
        start <= data@.len(),
    ensures
        match spec_read_varint(data@.skip(start as int)) {
            Ok((v, n)) => r == Ok::<(i32, usize), DecodeError>((v, (start + n) as usize)),
            Err(e) => r == Err::<(i32, usize), DecodeError>(e),
        },
{
    let ghost s = data@.skip(start as int);
    let mut count: usize = 0;
    let mut acc: u64 = 0;
    let mut mult: u64 = 1;
    loop
        invariant
            start <= data@.len(),
            s == data@.skip(start as int),
            count <= 5,
            start + count <= usize::MAX,
            count <= s.len(),
            forall|j: int| 0 <= j < count ==> s[j] >= 128,
            acc == varint_value(s.take(count as int)),
            mult == pow128(count as nat),
            acc < pow128(count as nat),
        decreases 5 - count,
    {
        if count == 5 {
            proof {
                lemma_prefix_len_none(s, 5);
            }
            return Err(DecodeError::MalformedVarint);
        }
        if start + count >= data.len() {
            proof {
                lemma_prefix_len_none(s, 5);
            }
            return Err(DecodeError::UnexpectedEnd);
        }
        let b = data[start + count];
        proof {
            assert(s[count as int] == data@[start + count]);
            lemma_varint_value_snoc(s, count as int);
            lemma_pow128_5();
            lemma_pow128_positive(count as nat);
            assert(pow128((count + 1) as nat) == 128 * pow128(count as nat));
            assert(acc + (b % 128) * pow128(count as nat) < pow128((count + 1) as nat))
                by (nonlinear_arith)
                requires
                    acc < pow128(count as nat),
                    (b % 128) < 128,
                    pow128((count + 1) as nat) == 128 * pow128(count as nat),
                    pow128(count as nat) >= 1;
            assert(pow128((count + 1) as nat) <= pow128(5)) by {
                lemma_pow128_mono((count + 1) as nat, 5);
            }
        }
        acc = acc + (b as u64 % 128) * mult;
        if count < 4 {
            mult = mult * 128;
        } else {
            proof {
                lemma_pow128_5();
            }
            mult = 0x8_0000_0000;
        }
        count = count + 1;
        if b < 128 {
            proof {
                lemma_prefix_len_at(s, count - 1, 5);
            }
            let low = (acc % 0x1_0000_0000) as u32;
            return Ok((i32_from_u32(low), start + count));
        }
    }
}

proof fn lemma_pow128_mono(a: nat, b: nat)
    requires
        a <= b,
    ensures
        pow128(a) <= pow128(b),
    decreases b,
{
    if a < b {
        lemma_pow128_mono(a, (b - 1) as nat);
        lemma_pow128_positive((b - 1) as nat);
    }
}

/// The varint round trip: decoding the encoding of any 32-bit value yields
/// that value back, the whole encoding is consumed, and it is one to five
/// bytes long.
pub proof fn lemma_varint_round_trip(value: i32)
    ensures
        1 <= varint_bytes(u32_of_i32(value)).len() <= 5,
        varint_prefix_len(varint_bytes(u32_of_i32(value)), 5) == Some(
            varint_bytes(u32_of_i32(value)).len(),
        ),
        varint_result(varint_bytes(u32_of_i32(value))) == value,
{
    let v = u32_of_i32(value);
    let enc = varint_bytes(v);
    lemma_varint_bytes_len(v);
    lemma_varint_bytes_terminated(v);
    lemma_prefix_len_at(enc, enc.len() - 1, 5);
    lemma_varint_value_of_bytes(v);
    assert(varint_value(enc) == v);
    assert(v < 0x1_0000_0000);
    assert(v % 0x1_0000_0000 == v);
}

} // verus!
