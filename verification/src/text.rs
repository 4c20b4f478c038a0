use vstd::prelude::*;

verus! {

/// What `String::from_utf8_lossy` makes of arbitrary bytes.
pub uninterp spec fn utf8_lossy_of(bytes: Seq<u8>) -> Seq<char>;

/// The characters that a sequence of ASCII bytes stands for.
pub open spec fn chars_of_ascii(bytes: Seq<u8>) -> Seq<char> {
    Seq::new(bytes.len(), |i: int| bytes[i] as char)
}

/// Relies on String::from_utf8_lossy: valid UTF-8 comes through unchanged,
/// so ASCII bytes decode to exactly their characters.
#[verifier::external_body]
pub(crate) fn string_from_utf8_lossy(bytes: &Vec<u8>) -> (r: String)
    ensures
        r@ == utf8_lossy_of(bytes@),
        (forall|i: int| 0 <= i < bytes@.len() ==> bytes@[i] < 0x80) ==> r@ == chars_of_ascii(
            bytes@,
        ),
{
    String::from_utf8_lossy(bytes.as_slice()).to_string()
}

/// Turn ASCII bytes into the string of the same characters.
pub fn ascii_to_string(bytes: &Vec<u8>) -> (r: String)
    requires
        forall|i: int| 0 <= i < bytes@.len() ==> bytes@[i] < 0x80,
    ensures
        r@ == chars_of_ascii(bytes@),
{
    string_from_utf8_lossy(bytes)
}

/// The ASCII decimal digits of `n`, most significant first.
pub open spec fn dec_digits(n: nat) -> Seq<u8>
    decreases n,
{
    if n < 10 {
        seq![(0x30 + n) as u8]
    } else {
        dec_digits(n / 10) + seq![(0x30 + n % 10) as u8]
    }
}

/// The ASCII decimal rendering of `v`, a minus sign first when negative.
pub open spec fn dec_bytes(v: int) -> Seq<u8> {
    if v < 0 {
        seq![0x2du8] + dec_digits((-v) as nat)
    } else {
        dec_digits(v as nat)
    }
}

/// Render an unsigned value in decimal ASCII.
pub fn u64_to_dec(n: u64) -> (r: Vec<u8>)
    ensures
        r@ == dec_digits(n as nat),
    decreases n,
{
    if n < 10 {
        let mut out: Vec<u8> = Vec::new();
        out.push(0x30 + (n as u8));
        proof {
            assert(out@ =~= dec_digits(n as nat));
        }
        out
    } else {
        let mut out = u64_to_dec(n / 10);
        out.push(0x30 + ((n % 10) as u8));
        proof {
            assert(out@ =~= dec_digits(n as nat));
        }
        out
    }
}

/// Render a signed value in decimal ASCII.
pub fn i64_to_dec(v: i64) -> (r: Vec<u8>)
    ensures
        r@ == dec_bytes(v as int),
{
    if v >= 0 {
        u64_to_dec(v as u64)
    } else {
        let mag: u64 = if v == i64::MIN {
            0x8000_0000_0000_0000
        } else {
            (-v) as u64
        };
        let mut out: Vec<u8> = Vec::new();
        out.push(0x2d);
        let mut digits = u64_to_dec(mag);
        out.append(&mut digits);
        proof {
            assert(out@ =~= dec_bytes(v as int));
        }
        out
    }
}

/// Decimal digits are ASCII, so the rendering converts to a `String` exactly.
pub proof fn lemma_dec_digits_ascii(n: nat)
    ensures
        forall|i: int| 0 <= i < dec_digits(n).len() ==> (0x30 <= #[trigger] dec_digits(n)[i]
            <= 0x39),
    decreases n,
{
    if n >= 10 {
        lemma_dec_digits_ascii(n / 10);
        assert forall|i: int| 0 <= i < dec_digits(n).len() implies (0x30 <= #[trigger] dec_digits(
            n,
        )[i] <= 0x39) by {
            if i < dec_digits(n).len() - 1 {
                assert(dec_digits(n)[i] == dec_digits(n / 10)[i]);
            }
        }
    }
}

/// The lower-case hex digit for a value below 16.
pub open spec fn hex_digit(n: u8) -> u8 {
    if n < 10 {
        (0x30 + n) as u8
    } else {
        (0x57 + n) as u8
    }
}

/// Bytes rendered as two lower-case hex digits each, space-separated.
pub open spec fn hex_bytes(s: Seq<u8>) -> Seq<u8>
    decreases s.len(),
{
    if s.len() == 0 {
        Seq::empty()
    } else if s.len() == 1 {
        seq![hex_digit(s[0] / 16), hex_digit(s[0] % 16)]
    } else {
        hex_bytes(s.drop_last()) + seq![0x20u8, hex_digit(s.last() / 16), hex_digit(s.last() % 16)]
    }
}

/// Render bytes as space-separated lower-case hex pairs.
pub fn bytes_to_hex_bytes(data: &[u8]) -> (r: Vec<u8>)
    ensures
        r@ == hex_bytes(data@),
{
    let mut out: Vec<u8> = Vec::new();
    let mut i: usize = 0;
    while i < data.len()
        invariant
            i <= data@.len(),
            out@ == hex_bytes(data@.take(i as int)),
        decreases data@.len() - i,
    {
        let b = data[i];
        if i > 0 {
            out.push(0x20);
        }
        let hi = b / 16;
        let lo = b % 16;
        out.push(if hi < 10 {
            0x30 + hi
        } else {
            0x57 + hi
        });
        out.push(if lo < 10 {
            0x30 + lo
        } else {
            0x57 + lo
        });
        proof {
            assert(data@.take(i + 1).drop_last() =~= data@.take(i as int));
            assert(data@.take(i + 1).last() == data@[i as int]);
            if i == 0 {
                assert(out@ =~= hex_bytes(data@.take(1)));
            } else {
                assert(out@ =~= hex_bytes(data@.take(i + 1)));
            }
        }
        i = i + 1;
    }
    proof {
        assert(data@.take(data@.len() as int) =~= data@);
    }
    out
}

/// Hex renderings are ASCII.
pub proof fn lemma_hex_bytes_ascii(s: Seq<u8>)
    ensures
        forall|i: int| 0 <= i < hex_bytes(s).len() ==> #[trigger] hex_bytes(s)[i] < 0x80,
    decreases s.len(),
{
    if s.len() > 1 {
        lemma_hex_bytes_ascii(s.drop_last());
        assert forall|i: int| 0 <= i < hex_bytes(s).len() implies #[trigger] hex_bytes(s)[i]
            < 0x80 by {
            if i < hex_bytes(s).len() - 3 {
                assert(hex_bytes(s)[i] == hex_bytes(s.drop_last())[i]);
            }
        }
    }
}

} // verus!
