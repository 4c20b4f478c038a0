use vstd::prelude::*;
use crate::text::{ascii_to_string, chars_of_ascii, dec_digits, hex_bytes, u64_to_dec};
use crate::varint::{spec_read_varint, DecodeError};

verus! {

/// Captures the wire traffic for developers: counts packets and renders
/// them for inspection. Writing capture files to disk happens outside.
#[derive(Debug)]
pub struct PacketLogger {
    pub counter: u64,
}

/// What a capture header parse yields: the packet id and the payload byte
/// count (the declared length less the id's bytes, at least zero).
pub open spec fn spec_parse_packet(data: Seq<u8>) -> Option<(i32, nat)> {
    match spec_read_varint(data) {
        Err(_) => None,
        Ok((len, n0)) => if len < 0 {
            None
        } else {
            match spec_read_varint(data.skip(n0 as int)) {
                Err(_) => None,
                Ok((id, n1)) => Some(
                    (
                        id,
                        if len >= n1 {
                            (len - n1) as nat
                        } else {
                            0
                        },
                    ),
                ),
            }
        },
    }
}

/// The suffix of a clientbound capture file name.
pub open spec fn client_suffix() -> Seq<u8> {
    seq![0x5fu8, 0x63u8, 0x6cu8, 0x69u8, 0x65u8, 0x6eu8, 0x74u8, 0x2eu8, 0x62u8, 0x69u8, 0x6eu8]
}

/// The suffix of a serverbound capture file name.
pub open spec fn server_suffix() -> Seq<u8> {
    seq![0x5fu8, 0x73u8, 0x65u8, 0x72u8, 0x76u8, 0x65u8, 0x72u8, 0x2eu8, 0x62u8, 0x69u8, 0x6eu8]
}

/// A capture count zero-padded to six digits.
pub open spec fn zero_pad6(n: nat) -> Seq<u8> {
    if dec_digits(n).len() >= 6 {
        dec_digits(n)
    } else {
        Seq::new((6 - dec_digits(n).len()) as nat, |i: int| 0x30u8) + dec_digits(n)
    }
}

/// The capture file name for one packet: the padded count and a direction
/// suffix.
pub open spec fn capture_name_bytes(count: nat, from_server: bool) -> Seq<u8> {
    zero_pad6(count) + if from_server {
        server_suffix()
    } else {
        client_suffix()
    }
}

impl PacketLogger {
    pub fn new() -> (r: Self)
        ensures
            r.counter == 0,
    {
        PacketLogger { counter: 0 }
    }

    /// Take the next capture number.
    pub fn next_count(&mut self) -> (r: u64)
        ensures
            r == old(self).counter,
            final(self).counter == (if old(self).counter < u64::MAX {
                old(self).counter + 1
            } else {
                old(self).counter as int
            }),
    {
        let c = self.counter;
        if self.counter < u64::MAX {
            self.counter = self.counter + 1;
        }
        c
    }

    /// Parse a captured frame's header: the packet id and payload length.
    pub fn parse_packet(&self, data: &[u8]) -> (r: Option<(i32, usize)>)
        ensures
            r == match spec_parse_packet(data@) {
                None => None::<(i32, usize)>,
                Some((id, p)) => Some((id, p as usize)),
            },
    {
        proof {
            assert(data@.skip(0) =~= data@);
            crate::varint::lemma_prefix_len_le(data@, 5);
        }
        let (len, n0) = match crate::varint::read_varint(data, 0) {
            Ok(v) => v,
            Err(_) => {
                return None;
            },
        };
        if len < 0 {
            return None;
        }
        let total = data.len();
        proof {
            crate::varint::lemma_prefix_len_le(data@.skip(n0 as int), 5);
        }
        let (id, n1) = match crate::varint::read_varint(data, n0) {
            Ok(v) => v,
            Err(_) => {
                return None;
            },
        };
        let id_bytes = n1 - n0;
        proof {
            crate::varint::lemma_prefix_len_le(data@.skip(n0 as int), 5);
        }
        if (len as usize) >= id_bytes {
            Some((id, (len as usize) - id_bytes))
        } else {
            Some((id, 0))
        }
    }

    /// Render bytes as space-separated lower-case hex pairs.
    pub fn bytes_to_hex(data: &[u8]) -> (r: String)
        ensures
            r@ == chars_of_ascii(hex_bytes(data@)),
    {
        let bytes = crate::text::bytes_to_hex_bytes(data);
        proof {
            crate::text::lemma_hex_bytes_ascii(data@);
        }
        ascii_to_string(&bytes)
    }

    /// The full hex rendering of a capture.
    pub fn hex_full(data: &[u8]) -> (r: String)
        ensures
            r@ == chars_of_ascii(hex_bytes(data@)),
    {
        Self::bytes_to_hex(data)
    }

    /// The hex rendering cut to `max_chars` characters, with an ellipsis
    /// when something was cut.
    pub fn hex_preview(data: &[u8], max_chars: usize) -> (r: String)
        ensures
            r@ == if hex_bytes(data@).len() > max_chars {
                chars_of_ascii(
                    hex_bytes(data@).take(max_chars as int) + seq![0x2eu8, 0x2eu8, 0x2eu8],
                )
            } else {
                chars_of_ascii(hex_bytes(data@))
            },
    {
        let mut bytes = crate::text::bytes_to_hex_bytes(data);
        proof {
            crate::text::lemma_hex_bytes_ascii(data@);
        }
        if bytes.len() > max_chars {
            bytes.truncate(max_chars);
            bytes.push(0x2e);
            bytes.push(0x2e);
            bytes.push(0x2e);
            proof {
                assert(bytes@ =~= hex_bytes(data@).take(max_chars as int) + seq![
                    0x2eu8,
                    0x2eu8,
                    0x2eu8,
                ]);
            }
            ascii_to_string(&bytes)
        } else {
            ascii_to_string(&bytes)
        }
    }

    /// The capture file name for a packet count and direction.
    pub fn capture_name(count: u64, from_server: bool) -> (r: String)
        ensures
            r@ == chars_of_ascii(capture_name_bytes(count as nat, from_server)),
    {
        let digits = u64_to_dec(count);
        let needed: usize = if digits.len() >= 6 {
            0
        } else {
            6 - digits.len()
        };
        let mut name: Vec<u8> = Vec::new();
        let mut pad: usize = 0;
        while pad < needed
            invariant
                digits@ == dec_digits(count as nat),
                needed == if digits@.len() >= 6 {
                    0int
                } else {
                    6 - digits@.len()
                },
                pad <= needed,
                name@ == Seq::new(pad as nat, |i: int| 0x30u8),
            decreases needed - pad,
        {
            name.push(0x30);
            proof {
                assert(name@ =~= Seq::new((pad + 1) as nat, |i: int| 0x30u8));
            }
            pad = pad + 1;
        }
        proof {
            assert(name@ =~= if dec_digits(count as nat).len() >= 6 {
                Seq::<u8>::empty()
            } else {
                Seq::new((6 - dec_digits(count as nat).len()) as nat, |i: int| 0x30u8)
            });
        }
        let mut d = digits;
        name.append(&mut d);
        if from_server {
            name.push(0x5f);
            name.push(0x73);
            name.push(0x65);
            name.push(0x72);
            name.push(0x76);
            name.push(0x65);
            name.push(0x72);
            name.push(0x2e);
            name.push(0x62);
            name.push(0x69);
            name.push(0x6e);
        } else {
            name.push(0x5f);
            name.push(0x63);
            name.push(0x6c);
            name.push(0x69);
            name.push(0x65);
            name.push(0x6e);
            name.push(0x74);
            name.push(0x2e);
            name.push(0x62);
            name.push(0x69);
            name.push(0x6e);
        }
        proof {
            crate::text::lemma_dec_digits_ascii(count as nat);
            if dec_digits(count as nat).len() >= 6 {
                assert(zero_pad6(count as nat) == dec_digits(count as nat));
            }
            assert(name@ =~= capture_name_bytes(count as nat, from_server));
            assert forall|i: int| 0 <= i < name@.len() implies name@[i] < 0x80 by {
                lemma_capture_name_ascii(count as nat, from_server, i);
            }
        }
        ascii_to_string(&name)
    }
}

proof fn lemma_capture_name_ascii(count: nat, from_server: bool, i: int)
    requires
        0 <= i < capture_name_bytes(count, from_server).len(),
        forall|j: int| 0 <= j < dec_digits(count).len() ==> (0x30 <= #[trigger] dec_digits(
            count,
        )[j] <= 0x39),
    ensures
        capture_name_bytes(count, from_server)[i] < 0x80,
{
}

} // verus!
