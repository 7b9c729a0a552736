use uorb_codec::codec::FieldValue;
use uorb_codec::registry::Parser;

fn lines_of_cp(text: &str) -> Vec<Vec<u8>> {
    text.lines().map(|l| l.as_bytes().to_vec()).collect()
}

fn registry_with_cp(raw_name: &str, text: &str) -> Parser {
    let mut reg = Parser::new();
    reg.generate(raw_name.as_bytes().to_vec(), &lines_of_cp(text))
        .expect("schema should register");
    reg
}

#[test]
fn test_actuator_controls_length_and_full_round_trip() {
    // The concrete layout scenario: 8 + 8 + 4 * 8 = 48 bytes, and every
    // field, all eight floats included, survives the round trip.
    let reg = registry_with_cp(
        "actuator_controls",
        "uint64 timestamp\nuint64 timestamp_sample\nfloat32[8] control",
    );
    let msg = &reg.messages[0];
    assert_eq!(msg.encoded_len(), 48);
    let mut vals = vec![FieldValue::U64(19), FieldValue::U64(21)];
    for i in 1..=8 {
        vals.push(FieldValue::F32Bits((i as f32).to_bits()));
    }
    let encoded = msg.ser(&vals);
    assert_eq!(encoded.len(), 48);
    let decoded = msg.deser(encoded.as_slice()).unwrap();
    assert_eq!(decoded, vals);
    for i in 0..8 {
        assert_eq!(decoded[2 + i], FieldValue::F32Bits(((i + 1) as f32).to_bits()));
    }
}

#[test]
fn test_scalar_encodings_are_little_endian() {
    let reg = registry_with_cp("mix", "uint16 a\nuint32 b\nuint64 c\nint16 d");
    let msg = &reg.messages[0];
    let vals = vec![
        FieldValue::U16(0x0102),
        FieldValue::U32(0x01020304),
        FieldValue::U64(0x0102030405060708),
        FieldValue::I16(-2),
    ];
    let encoded = msg.ser(&vals);
    assert_eq!(
        encoded,
        vec![
            0x02, 0x01, // u16, least significant byte first
            0x04, 0x03, 0x02, 0x01, // u32
            0x08, 0x07, 0x06, 0x05, 0x04, 0x03, 0x02, 0x01, // u64
            0xfe, 0xff, // -2 in two's complement, little-endian
        ]
    );
}

#[test]
fn test_signed_and_bool_round_trip() {
    let reg = registry_with_cp(
        "edges",
        "int8 a\nint16 b\nint32 c\nint64 d\nbool e\nbool f\nchar g\nfloat64 h",
    );
    let msg = &reg.messages[0];
    let vals = vec![
        FieldValue::I8(-128),
        FieldValue::I16(-32768),
        FieldValue::I32(-5),
        FieldValue::I64(i64::MIN),
        FieldValue::Bool(true),
        FieldValue::Bool(false),
        FieldValue::Char(b'x'),
        FieldValue::F64Bits(2.5f64.to_bits()),
    ];
    let encoded = msg.ser(&vals);
    let decoded = msg.deser(encoded.as_slice()).unwrap();
    assert_eq!(decoded, vals);
}

#[test]
fn test_bool_decodes_nonzero_as_true() {
    let reg = registry_with_cp("flag", "bool a");
    let msg = &reg.messages[0];
    let decoded = msg.deser(&[2u8]).unwrap();
    assert_eq!(decoded, vec![FieldValue::Bool(true)]);
    let decoded = msg.deser(&[0u8]).unwrap();
    assert_eq!(decoded, vec![FieldValue::Bool(false)]);
}

#[test]
fn test_decode_short_buffer_fails() {
    let reg = registry_with_cp("pair", "uint32 a\nuint8 b");
    let msg = &reg.messages[0];
    assert_eq!(msg.encoded_len(), 5);
    assert!(msg.deser(&[1, 2, 3, 4]).is_none());
    assert!(msg.deser(&[]).is_none());
    assert!(msg.deser(&[1, 2, 3, 4, 5]).is_some());
}

#[test]
fn test_decode_ignores_trailing_bytes() {
    let reg = registry_with_cp("tiny", "uint16 a");
    let msg = &reg.messages[0];
    let decoded = msg.deser(&[0x34, 0x12, 0xde, 0xad, 0xbe]).unwrap();
    assert_eq!(decoded, vec![FieldValue::U16(0x1234)]);
}

#[test]
fn test_empty_message_round_trip() {
    let reg = registry_with_cp("nothing", "# only a comment");
    let msg = &reg.messages[0];
    assert_eq!(msg.encoded_len(), 0);
    let vals: Vec<FieldValue> = vec![];
    let encoded = msg.ser(&vals);
    assert!(encoded.is_empty());
    let decoded = msg.deser(&[]).unwrap();
    assert!(decoded.is_empty());
}

#[test]
fn test_nested_array_round_trip() {
    // Arrays of arrays: the count applies to the outermost dimension,
    // and the wire holds the elements flat, with no length prefixes.
    let reg = registry_with_cp("grid", "uint8[2][3] cells");
    let msg = &reg.messages[0];
    assert_eq!(msg.encoded_len(), 6);
    let vals: Vec<FieldValue> = (1..=6).map(FieldValue::U8).collect();
    let encoded = msg.ser(&vals);
    assert_eq!(encoded, vec![1, 2, 3, 4, 5, 6]);
    let decoded = msg.deser(encoded.as_slice()).unwrap();
    assert_eq!(decoded, vals);
}

#[test]
fn test_large_array_uses_growable_representation_same_wire() {
    // Above the 32-element threshold only the in-memory representation
    // changes (a growable vector in generated code); the wire encoding
    // is identical: elements in order, no prefix.
    let reg = registry_with_cp("bulk", "uint8[40] data");
    let msg = &reg.messages[0];
    assert_eq!(msg.encoded_len(), 40);
    let vals: Vec<FieldValue> = (0..40).map(|i| FieldValue::U8(i as u8)).collect();
    let encoded = msg.ser(&vals);
    assert_eq!(encoded.len(), 40);
    assert_eq!(encoded[0], 0);
    assert_eq!(encoded[39], 39);
    assert_eq!(msg.deser(encoded.as_slice()).unwrap(), vals);
}
