use rustcraft::protocol::{
    decode_frame, encode_frame, validate_identifier, write_optional_bytes, Packet, PacketReader,
    PacketWriter,
};
use rustcraft::serialization;
use rustcraft::text;
use rustcraft::varint::{read_varint, write_varint, DecodeError};

#[test]
fn varint_round_trip_broad_sample() {
    let samples: Vec<i32> = vec![
        0,
        1,
        2,
        127,
        128,
        255,
        300,
        16383,
        16384,
        25565,
        2097151,
        2097152,
        i32::MAX,
        -1,
        -2,
        -128,
        -25565,
        i32::MIN,
    ];
    for &v in &samples {
        let enc = write_varint(v);
        assert!(enc.len() >= 1 && enc.len() <= 5);
        let (decoded, consumed) = read_varint(&enc, 0).unwrap();
        assert_eq!(decoded, v);
        assert_eq!(consumed, enc.len());
    }
}

#[test]
fn varint_known_encodings() {
    assert_eq!(write_varint(0), vec![0x00]);
    assert_eq!(write_varint(1), vec![0x01]);
    assert_eq!(write_varint(127), vec![0x7f]);
    assert_eq!(write_varint(128), vec![0x80, 0x01]);
    assert_eq!(write_varint(300), vec![0xac, 0x02]);
    assert_eq!(write_varint(-1), vec![0xff, 0xff, 0xff, 0xff, 0x0f]);
}

#[test]
fn varint_rejects_malformed_input() {
    // Five continuation bytes: malformed.
    let bad = vec![0x80u8, 0x80, 0x80, 0x80, 0x80, 0x01];
    assert_eq!(read_varint(&bad, 0), Err(DecodeError::MalformedVarint));
    // Truncated input: the bytes run out first.
    let short = vec![0x80u8, 0x80];
    assert_eq!(read_varint(&short, 0), Err(DecodeError::UnexpectedEnd));
}

#[test]
fn frame_round_trip() {
    let payload: Vec<u8> = vec![1, 2, 3, 250, 251, 252];
    let frame = encode_frame(0x2a, &payload);
    let packet = decode_frame(&frame).unwrap();
    assert_eq!(packet.id, 0x2a);
    assert_eq!(packet.data, payload);

    let empty: Vec<u8> = Vec::new();
    let frame = encode_frame(0x03, &empty);
    assert_eq!(frame, vec![0x01, 0x03]);
    let packet = decode_frame(&frame).unwrap();
    assert_eq!(packet.id, 0x03);
    assert!(packet.data.is_empty());
}

#[test]
fn packet_writer_emits_big_endian_fields() {
    let mut w = PacketWriter::new();
    w.write_short(-2);
    w.write_int(0x01020304);
    w.write_long(-1);
    w.write_bool(true);
    w.write_byte(0xab);
    let data = w.finish();
    let mut expected: Vec<u8> = Vec::new();
    expected.extend_from_slice(&(-2i16).to_be_bytes());
    expected.extend_from_slice(&0x01020304i32.to_be_bytes());
    expected.extend_from_slice(&(-1i64).to_be_bytes());
    expected.push(1);
    expected.push(0xab);
    assert_eq!(data, expected);
}

#[test]
fn packet_writer_strings_and_uuid() {
    let mut w = PacketWriter::new();
    w.write_string("hi");
    w.write_uuid(0x0102030405060708090a0b0c0d0e0f10u128);
    let data = w.finish();
    let mut expected: Vec<u8> = vec![2, b'h', b'i'];
    expected.extend_from_slice(&0x0102030405060708090a0b0c0d0e0f10u128.to_be_bytes());
    assert_eq!(data, expected);
}

#[test]
fn packet_writer_float_bits_match_ieee() {
    let mut w = PacketWriter::new();
    w.write_float_bits(1.5f32.to_bits());
    w.write_double_bits(64.0f64.to_bits());
    let data = w.finish();
    let mut expected: Vec<u8> = Vec::new();
    expected.extend_from_slice(&1.5f32.to_be_bytes());
    expected.extend_from_slice(&64.0f64.to_be_bytes());
    assert_eq!(data, expected);
}

#[test]
fn packet_reader_reads_fields_back() {
    let mut w = PacketWriter::new();
    w.write_varint(300);
    w.write_short(-2);
    w.write_int(-70000);
    w.write_long(1234567890123);
    w.write_bool(false);
    w.write_string("abc");
    w.write_uuid(42);
    let data = w.finish();

    let mut r = PacketReader::new(&data);
    assert_eq!(r.read_varint().unwrap(), 300);
    assert_eq!(r.read_short().unwrap(), -2);
    assert_eq!(r.read_int().unwrap(), -70000);
    assert_eq!(r.read_long().unwrap(), 1234567890123);
    assert_eq!(r.read_bool().unwrap(), false);
    assert_eq!(r.read_string().unwrap(), "abc");
    assert_eq!(r.read_uuid().unwrap(), 42);
    assert_eq!(r.remaining(), 0);
    assert_eq!(r.read_byte(), Err(DecodeError::UnexpectedEnd));
}

#[test]
fn packet_reader_bytes_and_bits() {
    let data: Vec<u8> = vec![0x40, 0x49, 0x0f, 0xdb, 9, 8, 7];
    let mut r = PacketReader::new(&data);
    let bits = r.read_float_bits().unwrap();
    assert_eq!(bits, 0x40490fdb);
    let rest = r.read_bytes(3).unwrap();
    assert_eq!(rest, vec![9, 8, 7]);
}

#[test]
fn identifier_validation() {
    assert!(validate_identifier("minecraft:overworld"));
    assert!(validate_identifier("a/b.c_d-e:f09"));
    assert!(!validate_identifier("bad id"));
    assert!(!validate_identifier("uh\0oh"));
    assert!(!validate_identifier("Ünicode"));
}

#[test]
fn optional_bytes_prefixing() {
    let mut w = PacketWriter::new();
    write_optional_bytes(&mut w, Some(&[7u8, 8, 9][..]));
    write_optional_bytes(&mut w, None);
    let data = w.finish();
    // 3-byte payload, then a varint -1 for absence.
    assert_eq!(data, vec![3, 7, 8, 9, 0xff, 0xff, 0xff, 0xff, 0x0f]);
}

#[test]
fn packet_struct_holds_fields() {
    let p = Packet::new(7, vec![1, 2]);
    assert_eq!(p.id, 7);
    assert_eq!(p.data, vec![1, 2]);
}

#[test]
fn serialization_primitives() {
    assert_eq!(serialization::varint(300), vec![0xac, 0x02]);
    assert_eq!(serialization::boolean(true), [0x01]);
    assert_eq!(serialization::boolean(false), [0x00]);
    assert_eq!(serialization::short(-2), (-2i16).to_be_bytes().to_vec());
    assert_eq!(serialization::unsigned_short(0xbeef), vec![0xbe, 0xef]);
    assert_eq!(serialization::int32(-70000), (-70000i32).to_be_bytes().to_vec());
    assert_eq!(serialization::long(-3), (-3i64).to_be_bytes().to_vec());
    assert_eq!(serialization::unsigned_long(0x1122334455667788), vec![
        0x11, 0x22, 0x33, 0x44, 0x55, 0x66, 0x77, 0x88,
    ]);
    assert_eq!(
        serialization::uuid(&0xdeadbeefu128),
        0xdeadbeefu128.to_be_bytes().to_vec()
    );
    assert_eq!(serialization::bitset(&[0x0102030405060708u64]), vec![
        1, 2, 3, 4, 5, 6, 7, 8,
    ]);
    assert_eq!(serialization::bitset(&[]), vec![0u8; 8]);
    assert_eq!(
        serialization::try_string("ab").unwrap(),
        vec![2, b'a', b'b']
    );
    assert_eq!(
        serialization::prefixed_array(vec![5, 6], 2),
        vec![2, 5, 6]
    );
}

#[test]
fn text_renderings() {
    assert_eq!(text::u64_to_dec(0), vec![b'0']);
    assert_eq!(text::u64_to_dec(907), vec![b'9', b'0', b'7']);
    assert_eq!(text::i64_to_dec(-32), vec![b'-', b'3', b'2']);
    assert_eq!(text::bytes_to_hex_bytes(&[0x00, 0xff, 0x2a]), b"00 ff 2a".to_vec());
    assert_eq!(text::ascii_to_string(&vec![b'h', b'i']), "hi");
}
