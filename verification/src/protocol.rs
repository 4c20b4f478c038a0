use vstd::prelude::*;
use vstd::slice::{slice_subrange, slice_to_vec};
use vstd::string::StringSliceAdditionalSpecFns;
use crate::varint::{
    spec_read_varint, read_varint as read_varint_at, u32_of_i32, varint_bytes, write_varint
    as varint_of, DecodeError,
};
use crate::serialization::{be_bytes, be_value, u16_of_i16, u64_of_i64};
use crate::text::{string_from_utf8_lossy, utf8_lossy_of};

verus! {

/// A decoded packet: its identifier and its payload bytes.
pub struct Packet {
    pub id: i32,
    pub data: Vec<u8>,
}

impl Packet {
    pub fn new(id: i32, data: Vec<u8>) -> (r: Packet)
        ensures
            r.id == id,
            r.data@ == data@,
    {
        Packet { id, data }
    }
}

/// True of the characters an identifier (a resource location) may hold:
/// ASCII letters and digits, and `/ . _ - :`.
pub open spec fn is_identifier_byte(b: u8) -> bool {
    ||| (0x30 <= b <= 0x39)
    ||| (0x41 <= b <= 0x5a)
    ||| (0x61 <= b <= 0x7a)
    ||| b == 0x2f
    ||| b == 0x2e
    ||| b == 0x5f
    ||| b == 0x2d
    ||| b == 0x3a
}

/// Check a Minecraft identifier: every byte must be an ASCII letter, a
/// digit, or one of `/ . _ - :` (which also rules out null bytes).
pub fn validate_identifier(id: &str) -> (r: bool)
    ensures
        r == forall|i: int| 0 <= i < id.spec_bytes().len() ==> is_identifier_byte(
            #[trigger] id.spec_bytes()[i],
        ),
{
    let bytes = id.as_bytes();
    let mut i: usize = 0;
    while i < bytes.len()
        invariant
            i <= bytes@.len(),
            bytes@ == id.spec_bytes(),
            forall|j: int| 0 <= j < i ==> is_identifier_byte(#[trigger] bytes@[j]),
        decreases bytes@.len() - i,
    {
        let b = bytes[i];
        let ok = (b >= 0x30 && b <= 0x39) || (b >= 0x41 && b <= 0x5a) || (b >= 0x61 && b <= 0x7a)
            || b == 0x2f || b == 0x2e || b == 0x5f || b == 0x2d || b == 0x3a;
        if !ok {
            return false;
        }
        i = i + 1;
    }
    true
}

/// Builds a packet payload by appending typed fields to a byte buffer.
/// Multi-byte numerics go out big-endian, strings as a varint byte length
/// followed by UTF-8 bytes, as the Java-Edition protocol asks.
pub struct PacketWriter {
    pub data: Vec<u8>,
}

impl Default for PacketWriter {
    fn default() -> (r: Self)
        ensures
            r.data@ == Seq::<u8>::empty(),
    {
        PacketWriter { data: Vec::new() }
    }
}

impl PacketWriter {
    pub fn new() -> (r: Self)
        ensures
            r.data@ == Seq::<u8>::empty(),
    {
        PacketWriter { data: Vec::new() }
    }

    pub fn write_varint(&mut self, value: i32)
        ensures
            final(self).data@ == old(self).data@ + varint_bytes(u32_of_i32(value)),
    {
        let mut enc = varint_of(value);
        self.data.append(&mut enc);
    }

    pub fn write_string(&mut self, s: &str)
        requires
            s.spec_bytes().len() <= 0x7fff_ffff,
        ensures
            final(self).data@ == old(self).data@ + varint_bytes(s.spec_bytes().len())
                + s.spec_bytes(),
    {
        let bytes = s.as_bytes();
        proof {
            assert(u32_of_i32(s.spec_bytes().len() as i32) == s.spec_bytes().len());
        }
        self.write_varint(bytes.len() as i32);
        self.data.extend_from_slice(bytes);
    }

    pub fn write_byte(&mut self, value: u8)
        ensures
            final(self).data@ == old(self).data@ + seq![value],
    {
        self.data.push(value);
        proof {
            assert(self.data@ =~= old(self).data@ + seq![value]);
        }
    }

    pub fn write_short(&mut self, value: i16)
        ensures
            final(self).data@ == old(self).data@ + be_bytes(u16_of_i16(value), 2),
    {
        let mut enc = crate::serialization::short(value);
        self.data.append(&mut enc);
    }

    pub fn write_unsigned_short(&mut self, value: u16)
        ensures
            final(self).data@ == old(self).data@ + be_bytes(value as nat, 2),
    {
        let mut enc = crate::serialization::unsigned_short(value);
        self.data.append(&mut enc);
    }

    pub fn write_int(&mut self, value: i32)
        ensures
            final(self).data@ == old(self).data@ + be_bytes(u32_of_i32(value), 4),
    {
        let mut enc = crate::serialization::int32(value);
        self.data.append(&mut enc);
    }

    pub fn write_long(&mut self, value: i64)
        ensures
            final(self).data@ == old(self).data@ + be_bytes(u64_of_i64(value), 8),
    {
        let mut enc = crate::serialization::long(value);
        self.data.append(&mut enc);
    }

    /// Write an IEEE-754 single, handed over as its raw bits.
    pub fn write_float_bits(&mut self, bits: u32)
        ensures
            final(self).data@ == old(self).data@ + be_bytes(bits as nat, 4),
    {
        proof {
            crate::serialization::lemma_pow256_16();
        }
        crate::serialization::be_encode(bits as u128, 4, &mut self.data);
    }

    /// Write an IEEE-754 double, handed over as its raw bits.
    pub fn write_double_bits(&mut self, bits: u64)
        ensures
            final(self).data@ == old(self).data@ + be_bytes(bits as nat, 8),
    {
        proof {
            crate::serialization::lemma_pow256_16();
        }
        crate::serialization::be_encode(bits as u128, 8, &mut self.data);
    }

    pub fn write_bool(&mut self, value: bool)
        ensures
            final(self).data@ == old(self).data@ + seq![if value { 1u8 } else { 0u8 }],
    {
        self.write_byte(if value { 1 } else { 0 });
    }

    /// Write a UUID as sixteen raw big-endian bytes.
    pub fn write_uuid(&mut self, value: u128)
        ensures
            final(self).data@ == old(self).data@ + be_bytes(value as nat, 16),
    {
        proof {
            crate::serialization::lemma_pow256_16();
        }
        crate::serialization::be_encode(value, 16, &mut self.data);
    }

    pub fn write_bytes(&mut self, bytes: &[u8])
        ensures
            final(self).data@ == old(self).data@ + bytes@,
    {
        self.data.extend_from_slice(bytes);
    }

    pub fn finish(self) -> (r: Vec<u8>)
        ensures
            r@ == self.data@,
    {
        self.data
    }
}

/// Prefixed-optional bytes: a varint -1 signals absence, otherwise the
/// byte length as a varint and then the raw bytes.
pub fn write_optional_bytes(writer: &mut PacketWriter, data: Option<&[u8]>)
    requires
        data is Some ==> data.unwrap()@.len() <= 0x7fff_ffff,
    ensures
        final(writer).data@ == old(writer).data@ + match data {
            Some(b) => varint_bytes(b@.len()) + b@,
            None => varint_bytes(u32_of_i32(-1i32)),
        },
{
    match data {
        Some(bytes) => {
            proof {
                assert(u32_of_i32(bytes@.len() as i32) == bytes@.len());
            }
            writer.write_varint(bytes.len() as i32);
            writer.write_bytes(bytes);
        },
        None => {
            writer.write_varint(-1);
        },
    }
}

/// Reads typed fields out of a packet payload, front to back.
pub struct PacketReader<'a> {
    pub data: &'a [u8],
    pub pos: usize,
}

impl<'a> PacketReader<'a> {
    pub open spec fn wf(self) -> bool {
        self.pos <= self.data@.len()
    }

    /// The bytes not yet consumed.
    pub open spec fn rest(self) -> Seq<u8> {
        self.data@.skip(self.pos as int)
    }

    pub fn new(data: &'a [u8]) -> (r: Self)
        ensures
            r.data@ == data@,
            r.pos == 0,
            r.wf(),
    {
        PacketReader { data, pos: 0 }
    }

    /// Read a varint; on an error the reader does not move.
    pub fn read_varint(&mut self) -> (r: Result<i32, DecodeError>)
        requires
            old(self).wf(),
        ensures
            final(self).wf(),
            final(self).data@ == old(self).data@,
            match spec_read_varint(old(self).rest()) {
                Ok((v, n)) => r == Ok::<i32, DecodeError>(v) && final(self).pos == old(self).pos
                    + n,
                Err(e) => r == Err::<i32, DecodeError>(e) && final(self).pos == old(self).pos,
            },
    {
        let total = self.data.len();
        proof {
            crate::varint::lemma_prefix_len_le(old(self).rest(), 5);
        }
        match read_varint_at(self.data, self.pos) {
            Ok((v, end)) => {
                self.pos = end;
                Ok(v)
            },
            Err(e) => Err(e),
        }
    }

    /// Read exactly `len` raw bytes; on an error the reader does not move.
    pub fn read_bytes(&mut self, len: usize) -> (r: Result<Vec<u8>, DecodeError>)
        requires
            old(self).wf(),
        ensures
            final(self).wf(),
            final(self).data@ == old(self).data@,
            if old(self).pos + len <= old(self).data@.len() {
                r matches Ok(v) && v@ == old(self).rest().take(len as int) && final(self).pos
                    == old(self).pos + len
            } else {
                r == Err::<Vec<u8>, DecodeError>(DecodeError::UnexpectedEnd) && final(self).pos
                    == old(self).pos
            },
    {
        if len > self.data.len() - self.pos {
            return Err(DecodeError::UnexpectedEnd);
        }
        let piece = slice_subrange(self.data, self.pos, self.pos + len);
        let out = slice_to_vec(piece);
        self.pos = self.pos + len;
        proof {
            assert(out@ =~= old(self).rest().take(len as int));
        }
        Ok(out)
    }

    /// Read `n` bytes (at most 16) as an unsigned big-endian value.
    fn read_be(&mut self, n: usize) -> (r: Result<u128, DecodeError>)
        requires
            old(self).wf(),
            1 <= n <= 16,
        ensures
            final(self).wf(),
            final(self).data@ == old(self).data@,
            if old(self).pos + n <= old(self).data@.len() {
                r matches Ok(v) && v as nat == be_value(old(self).rest().take(n as int)) && final(self).pos == old(self).pos + n
            } else {
                r == Err::<u128, DecodeError>(DecodeError::UnexpectedEnd) && final(self).pos == old(self).pos
            },
    {
        if n > self.data.len() - self.pos {
            return Err(DecodeError::UnexpectedEnd);
        }
        let v = crate::serialization::be_decode(self.data, self.pos, n);
        proof {
            assert(old(self).rest().take(n as int) =~= self.data@.subrange(
                self.pos as int,
                self.pos + n,
            ));
        }
        self.pos = self.pos + n;
        Ok(v)
    }

    /// Read one byte.
    pub fn read_byte(&mut self) -> (r: Result<u8, DecodeError>)
        requires
            old(self).wf(),
        ensures
            final(self).wf(),
            final(self).data@ == old(self).data@,
            if old(self).pos + 1 <= old(self).data@.len() {
                r == Ok::<u8, DecodeError>(old(self).rest()[0]) && final(self).pos == old(self).pos
                    + 1
            } else {
                r == Err::<u8, DecodeError>(DecodeError::UnexpectedEnd) && final(self).pos == old(self).pos
            },
    {
        if self.pos >= self.data.len() {
            return Err(DecodeError::UnexpectedEnd);
        }
        let b = self.data[self.pos];
        proof {
            assert(old(self).rest()[0] == self.data@[self.pos as int]);
        }
        self.pos = self.pos + 1;
        Ok(b)
    }

    /// Read a big-endian signed 16-bit value.
    pub fn read_short(&mut self) -> (r: Result<i16, DecodeError>)
        requires
            old(self).wf(),
        ensures
            final(self).wf(),
            final(self).data@ == old(self).data@,
            if old(self).pos + 2 <= old(self).data@.len() {
                r matches Ok(v) && u16_of_i16(v) == be_value(old(self).rest().take(2)) && final(self).pos == old(self).pos + 2
            } else {
                r == Err::<i16, DecodeError>(DecodeError::UnexpectedEnd) && final(self).pos == old(self).pos
            },
    {
        let v = self.read_be(2)?;
        proof {
            crate::serialization::lemma_be_value_bound(old(self).rest().take(2), 2);
            crate::serialization::lemma_pow256_16();
        }
        let bits = v as u16;
        if bits < 0x8000 {
            Ok(bits as i16)
        } else {
            Ok(((bits as i32) - 0x1_0000) as i16)
        }
    }

    /// Read a big-endian unsigned 16-bit value.
    pub fn read_unsigned_short(&mut self) -> (r: Result<u16, DecodeError>)
        requires
            old(self).wf(),
        ensures
            final(self).wf(),
            final(self).data@ == old(self).data@,
            if old(self).pos + 2 <= old(self).data@.len() {
                r matches Ok(v) && v as nat == be_value(old(self).rest().take(2)) && final(self).pos == old(self).pos + 2
            } else {
                r == Err::<u16, DecodeError>(DecodeError::UnexpectedEnd) && final(self).pos == old(self).pos
            },
    {
        let v = self.read_be(2)?;
        proof {
            crate::serialization::lemma_be_value_bound(old(self).rest().take(2), 2);
            crate::serialization::lemma_pow256_16();
        }
        Ok(v as u16)
    }

    /// Read a big-endian signed 32-bit value.
    pub fn read_int(&mut self) -> (r: Result<i32, DecodeError>)
        requires
            old(self).wf(),
        ensures
            final(self).wf(),
            final(self).data@ == old(self).data@,
            if old(self).pos + 4 <= old(self).data@.len() {
                r matches Ok(v) && u32_of_i32(v) == be_value(old(self).rest().take(4)) && final(self).pos == old(self).pos + 4
            } else {
                r == Err::<i32, DecodeError>(DecodeError::UnexpectedEnd) && final(self).pos == old(self).pos
            },
    {
        let v = self.read_be(4)?;
        proof {
            crate::serialization::lemma_be_value_bound(old(self).rest().take(4), 4);
            crate::serialization::lemma_pow256_16();
        }
        let bits = v as u32;
        if bits < 0x8000_0000 {
            Ok(bits as i32)
        } else {
            Ok(((bits as i64) - 0x1_0000_0000) as i32)
        }
    }

    /// Read a big-endian signed 64-bit value.
    pub fn read_long(&mut self) -> (r: Result<i64, DecodeError>)
        requires
            old(self).wf(),
        ensures
            final(self).wf(),
            final(self).data@ == old(self).data@,
            if old(self).pos + 8 <= old(self).data@.len() {
                r matches Ok(v) && u64_of_i64(v) == be_value(old(self).rest().take(8)) && final(self).pos == old(self).pos + 8
            } else {
                r == Err::<i64, DecodeError>(DecodeError::UnexpectedEnd) && final(self).pos == old(self).pos
            },
    {
        let v = self.read_be(8)?;
        proof {
            crate::serialization::lemma_be_value_bound(old(self).rest().take(8), 8);
            crate::serialization::lemma_pow256_16();
        }
        let bits = v as u64;
        if bits < 0x8000_0000_0000_0000 {
            Ok(bits as i64)
        } else {
            Ok(((bits as i128) - 0x1_0000_0000_0000_0000) as i64)
        }
    }

    /// Read the raw bits of an IEEE-754 single.
    pub fn read_float_bits(&mut self) -> (r: Result<u32, DecodeError>)
        requires
            old(self).wf(),
        ensures
            final(self).wf(),
            final(self).data@ == old(self).data@,
            if old(self).pos + 4 <= old(self).data@.len() {
                r matches Ok(v) && v as nat == be_value(old(self).rest().take(4)) && final(self).pos == old(self).pos + 4
            } else {
                r == Err::<u32, DecodeError>(DecodeError::UnexpectedEnd) && final(self).pos == old(self).pos
            },
    {
        let v = self.read_be(4)?;
        proof {
            crate::serialization::lemma_be_value_bound(old(self).rest().take(4), 4);
            crate::serialization::lemma_pow256_16();
        }
        Ok(v as u32)
    }

    /// Read the raw bits of an IEEE-754 double.
    pub fn read_double_bits(&mut self) -> (r: Result<u64, DecodeError>)
        requires
            old(self).wf(),
        ensures
            final(self).wf(),
            final(self).data@ == old(self).data@,
            if old(self).pos + 8 <= old(self).data@.len() {
                r matches Ok(v) && v as nat == be_value(old(self).rest().take(8)) && final(self).pos == old(self).pos + 8
            } else {
                r == Err::<u64, DecodeError>(DecodeError::UnexpectedEnd) && final(self).pos == old(self).pos
            },
    {
        let v = self.read_be(8)?;
        proof {
            crate::serialization::lemma_be_value_bound(old(self).rest().take(8), 8);
            crate::serialization::lemma_pow256_16();
        }
        Ok(v as u64)
    }

    /// Read a boolean: zero is false, any other byte true.
    pub fn read_bool(&mut self) -> (r: Result<bool, DecodeError>)
        requires
            old(self).wf(),
        ensures
            final(self).wf(),
            final(self).data@ == old(self).data@,
            if old(self).pos + 1 <= old(self).data@.len() {
                r == Ok::<bool, DecodeError>(old(self).rest()[0] != 0) && final(self).pos == old(self).pos + 1
            } else {
                r == Err::<bool, DecodeError>(DecodeError::UnexpectedEnd) && final(self).pos == old(self).pos
            },
    {
        let b = self.read_byte()?;
        Ok(b != 0)
    }

    /// Read a UUID: sixteen raw big-endian bytes.
    pub fn read_uuid(&mut self) -> (r: Result<u128, DecodeError>)
        requires
            old(self).wf(),
        ensures
            final(self).wf(),
            final(self).data@ == old(self).data@,
            if old(self).pos + 16 <= old(self).data@.len() {
                r matches Ok(v) && v as nat == be_value(old(self).rest().take(16)) && final(self).pos == old(self).pos + 16
            } else {
                r == Err::<u128, DecodeError>(DecodeError::UnexpectedEnd) && final(self).pos == old(self).pos
            },
    {
        self.read_be(16)
    }

    /// Read a string: a varint byte length, then that many UTF-8 bytes.
    /// A negative length is a bad frame; on any error the reader does not move.
    pub fn read_string(&mut self) -> (r: Result<String, DecodeError>)
        requires
            old(self).wf(),
        ensures
            final(self).wf(),
            final(self).data@ == old(self).data@,
            match spec_read_string(old(self).rest()) {
                Err(e) => r == Err::<String, DecodeError>(e) && final(self).pos == old(self).pos,
                Ok((cs, n)) => r matches Ok(s) && s@ == cs && final(self).pos == old(self).pos + n,
            },
    {
        let saved = self.pos;
        let len = match self.read_varint() {
            Ok(v) => v,
            Err(e) => {
                return Err(e);
            },
        };
        if len < 0 {
            self.pos = saved;
            return Err(DecodeError::BadFrame);
        }
        match self.read_bytes(len as usize) {
            Ok(bytes) => {
                proof {
                    let srv = spec_read_varint(old(self).rest());
                    let n = srv.unwrap().1 as int;
                    assert(bytes@ =~= old(self).rest().subrange(n, n + len));
                }
                Ok(string_from_utf8_lossy(&bytes))
            },
            Err(e) => {
                self.pos = saved;
                Err(e)
            },
        }
    }

    /// How many bytes are left to read.
    pub fn remaining(&self) -> (r: usize)
        requires
            self.wf(),
        ensures
            r == self.rest().len(),
    {
        self.data.len() - self.pos
    }
}

/// What reading a string from the head of `s` yields: the characters and
/// the bytes consumed (the length varint plus the string bytes), or the
/// error. A negative length is a bad frame.
pub open spec fn spec_read_string(s: Seq<u8>) -> Result<(Seq<char>, nat), DecodeError> {
    match spec_read_varint(s) {
        Err(e) => Err(e),
        Ok((len, n)) => if len < 0 {
            Err(DecodeError::BadFrame)
        } else if n + len > s.len() {
            Err(DecodeError::UnexpectedEnd)
        } else {
            Ok((utf8_lossy_of(s.subrange(n as int, n + len)), (n + len) as nat))
        },
    }
}

/// The framed form of a packet: a varint total length (id plus payload),
/// the varint packet id, then the payload bytes.
pub open spec fn frame_bytes(id: i32, payload: Seq<u8>) -> Seq<u8> {
    varint_bytes(varint_bytes(u32_of_i32(id)).len() + payload.len()) + varint_bytes(u32_of_i32(id))
        + payload
}

/// What decoding a frame from the head of `data` yields.
pub open spec fn spec_decode_frame(data: Seq<u8>) -> Result<(i32, Seq<u8>), DecodeError> {
    match spec_read_varint(data) {
        Err(e) => Err(e),
        Ok((len, n1)) => if len < 0 {
            Err(DecodeError::BadFrame)
        } else if n1 + len > data.len() {
            Err(DecodeError::UnexpectedEnd)
        } else {
            let body = data.subrange(n1 as int, n1 + len);
            match spec_read_varint(body) {
                Err(e) => Err(e),
                Ok((id, n2)) => Ok((id, body.skip(n2 as int))),
            }
        },
    }
}

/// Encode one frame: varint length of (id plus payload), varint id, payload.
pub fn encode_frame(packet_id: i32, payload: &[u8]) -> (r: Vec<u8>)
    requires
        payload@.len() + 5 <= 0x7fff_ffff,
    ensures
        r@ == frame_bytes(packet_id, payload@),
{
    let id_enc = varint_of(packet_id);
    let inner_len = id_enc.len() + payload.len();
    proof {
        assert(u32_of_i32(inner_len as i32) == inner_len);
    }
    let mut frame = varint_of(inner_len as i32);
    frame.extend_from_slice(id_enc.as_slice());
    frame.extend_from_slice(payload);
    proof {
        assert(frame@ =~= frame_bytes(packet_id, payload@));
    }
    frame
}

/// Decode one frame from the head of `data`: the packet id and the payload.
pub fn decode_frame(data: &[u8]) -> (r: Result<Packet, DecodeError>)
    ensures
        match spec_decode_frame(data@) {
            Ok((id, p)) => r matches Ok(pk) && pk.id == id && pk.data@ == p,
            Err(e) => r == Err::<Packet, DecodeError>(e),
        },
{
    proof {
        assert(data@.skip(0) =~= data@);
        crate::varint::lemma_prefix_len_le(data@, 5);
    }
    let (len, n1) = match read_varint_at(data, 0) {
        Ok(v) => v,
        Err(e) => {
            return Err(e);
        },
    };
    if len < 0 {
        return Err(DecodeError::BadFrame);
    }
    if (len as usize) > data.len() - n1 {
        return Err(DecodeError::UnexpectedEnd);
    }
    let body = slice_subrange(data, n1, n1 + (len as usize));
    proof {
        assert(body@.skip(0) =~= body@);
        crate::varint::lemma_prefix_len_le(body@, 5);
    }
    let (id, n2) = match read_varint_at(body, 0) {
        Ok(v) => v,
        Err(e) => {
            return Err(e);
        },
    };
    let payload = slice_to_vec(slice_subrange(body, n2, len as usize));
    proof {
        let b = data@.subrange(n1 as int, n1 + len);
        assert(payload@ =~= b.skip(n2 as int));
    }
    Ok(Packet { id, data: payload })
}

/// The frame round trip: any packet id with any payload that fits a frame
/// comes back from the decoder with the same id and the same payload bytes.
pub proof fn lemma_frame_round_trip(id: i32, payload: Seq<u8>)
    requires
        payload.len() + 5 <= 0x7fff_ffff,
    ensures
        spec_decode_frame(frame_bytes(id, payload)) == Ok::<(i32, Seq<u8>), DecodeError>(
            (id, payload),
        ),
{
    let id_enc = varint_bytes(u32_of_i32(id));
    crate::varint::lemma_varint_round_trip(id);
    let inner = (id_enc.len() + payload.len()) as nat;
    let len_enc = varint_bytes(inner);
    crate::varint::lemma_varint_round_trip(inner as i32);
    assert(u32_of_i32(inner as i32) == inner);
    let s = frame_bytes(id, payload);
    assert(s == len_enc + id_enc + payload);

    // The length header parses back to `inner`.
    crate::varint::lemma_varint_bytes_len(inner);
    crate::varint::lemma_varint_bytes_terminated(inner);
    let n1 = len_enc.len() as int;
    assert forall|j: int| 0 <= j < n1 - 1 implies s[j] >= 128 by {
        assert(s[j] == len_enc[j]);
    }
    assert(s[n1 - 1] == len_enc[n1 - 1]);
    crate::varint::lemma_prefix_len_at(s, n1 - 1, 5);
    assert(s.take(n1) =~= len_enc);
    assert(spec_read_varint(s) == Ok::<(i32, nat), DecodeError>((inner as i32, n1 as nat)));

    // The body is the id encoding followed by the payload.
    assert(inner as i32 >= 0);
    assert(n1 + inner <= s.len());
    let body = s.subrange(n1, n1 + inner);
    assert(body =~= id_enc + payload);

    // The id parses back out of the body.
    crate::varint::lemma_varint_bytes_len(u32_of_i32(id));
    crate::varint::lemma_varint_bytes_terminated(u32_of_i32(id));
    let n2 = id_enc.len() as int;
    assert forall|j: int| 0 <= j < n2 - 1 implies body[j] >= 128 by {
        assert(body[j] == id_enc[j]);
    }
    assert(body[n2 - 1] == id_enc[n2 - 1]);
    crate::varint::lemma_prefix_len_at(body, n2 - 1, 5);
    assert(body.take(n2) =~= id_enc);
    assert(spec_read_varint(body) == Ok::<(i32, nat), DecodeError>((id, n2 as nat)));
    assert(body.skip(n2) =~= payload);
}

} // verus!
