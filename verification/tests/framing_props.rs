use uorb_codec::UORB_MAGIC_V1;
use uorb_codec::codec::FieldValue;
use uorb_codec::framing::{ReadMsgError, UorbHeader, read_msg, write_msg};
use uorb_codec::registry::{Parser, UorbMessage};

fn lines_of_fp(text: &str) -> Vec<Vec<u8>> {
    text.lines().map(|l| l.as_bytes().to_vec()).collect()
}

fn registry_with_fp(raw_name: &str, text: &str) -> Parser {
    let mut reg = Parser::new();
    reg.generate(raw_name.as_bytes().to_vec(), &lines_of_fp(text))
        .expect("schema should register");
    reg
}

fn small_registry_fp() -> Parser {
    registry_with_fp("attitude", "uint16 roll\nuint16 pitch\nuint8 source")
}

fn small_values_fp() -> Vec<FieldValue> {
    vec![FieldValue::U16(0x0102), FieldValue::U16(0xa0b0), FieldValue::U8(7)]
}

fn small_frame_fp(reg: &Parser, timestamp: u64, instance_id: u8) -> Vec<u8> {
    let desc = &reg.messages[0];
    let (hdr, msg) = desc.gen_ready_pair(&small_values_fp(), instance_id, timestamp);
    let mut v = vec![];
    write_msg(&mut v, reg, &hdr, &msg);
    v
}

#[test]
fn test_frame_bytes_exact() {
    let reg = small_registry_fp();
    let hash = reg.messages[0].get_hash_code();
    let v = small_frame_fp(&reg, 0x0102030405060708, 9);
    let mut expected = vec![UORB_MAGIC_V1];
    expected.extend_from_slice(&[(hash >> 8) as u8, (hash & 0xff) as u8]);
    expected.extend_from_slice(&[1, 2, 3, 4, 5, 6, 7, 8]); // timestamp, big-endian
    expected.push(9); // instance id
    expected.extend_from_slice(&[0, 5]); // payload length, big-endian
    expected.extend_from_slice(&[0x02, 0x01, 0xb0, 0xa0, 7]); // payload, little-endian
    assert_eq!(v, expected);
}

#[test]
fn test_read_returns_written_frame() {
    let reg = small_registry_fp();
    let v = small_frame_fp(&reg, 666, 3);
    let (hdr, msg, used) = read_msg(&reg, v.as_slice()).unwrap();
    assert_eq!(hdr.hash, reg.messages[0].get_hash_code());
    assert_eq!(hdr.timestamp, 666);
    assert_eq!(hdr.instance_id, 3);
    assert_eq!(hdr.payload_len, 5);
    assert_eq!(msg.values, small_values_fp());
    assert_eq!(used, v.len());
}

#[test]
fn test_resync_consumes_garbage_then_frame() {
    // A stream of N garbage bytes (none the marker) followed by one
    // valid frame yields that frame with exactly N plus the frame
    // length consumed.
    let reg = small_registry_fp();
    let frame = small_frame_fp(&reg, 1, 0);
    let garbage = vec![0x00u8, 0x13, 0x55, 0xfe, 0x99, 0x42, 0x01];
    let mut stream = garbage.clone();
    stream.extend_from_slice(&frame);
    let (hdr, msg, used) = read_msg(&reg, stream.as_slice()).unwrap();
    assert_eq!(used, garbage.len() + frame.len());
    assert_eq!(hdr.hash, reg.messages[0].get_hash_code());
    assert_eq!(msg.values, small_values_fp());
}

#[test]
fn test_oversize_frame_is_skipped_without_reading_payload() {
    // A header declaring payload_len = 300 must not be read as 300
    // payload bytes: the reader drops the frame after its fixed header
    // and resynchronizes, here onto a valid frame that begins
    // immediately after those header bytes.
    let reg = small_registry_fp();
    let hash = reg.messages[0].get_hash_code();
    let mut stream = vec![UORB_MAGIC_V1];
    stream.extend_from_slice(&[(hash >> 8) as u8, (hash & 0xff) as u8]);
    stream.extend_from_slice(&[0; 8]); // timestamp
    stream.push(0); // instance id
    stream.extend_from_slice(&300u16.to_be_bytes()); // oversize payload_len
    let frame = small_frame_fp(&reg, 2, 1);
    stream.extend_from_slice(&frame);
    let (hdr, _msg, used) = read_msg(&reg, stream.as_slice()).unwrap();
    assert_eq!(hdr.timestamp, 2);
    assert_eq!(used, 14 + frame.len());
}

#[test]
fn test_unknown_hash_is_an_error_not_a_resync() {
    let reg = small_registry_fp();
    let mut stream = vec![UORB_MAGIC_V1];
    stream.extend_from_slice(&0x1234u16.to_be_bytes());
    stream.extend_from_slice(&[0; 8]);
    stream.push(0);
    stream.extend_from_slice(&0u16.to_be_bytes());
    assert_eq!(read_msg(&reg, stream.as_slice()), Err(ReadMsgError::UnknownHash(0x1234)));
}

#[test]
fn test_short_payload_is_an_error() {
    let reg = small_registry_fp();
    let hash = reg.messages[0].get_hash_code();
    let mut stream = vec![UORB_MAGIC_V1];
    stream.extend_from_slice(&hash.to_be_bytes());
    stream.extend_from_slice(&[0; 8]);
    stream.push(0);
    stream.extend_from_slice(&2u16.to_be_bytes()); // shorter than the 5 encoded bytes
    stream.extend_from_slice(&[0xaa, 0xbb]);
    assert_eq!(read_msg(&reg, stream.as_slice()), Err(ReadMsgError::ShortPayload(hash)));
}

#[test]
fn test_eof_on_empty_and_garbage_only_input() {
    let reg = small_registry_fp();
    assert_eq!(read_msg(&reg, &[]), Err(ReadMsgError::Eof));
    assert_eq!(read_msg(&reg, &[0x01, 0x02, 0x03]), Err(ReadMsgError::Eof));
    // A marker with a truncated header is a fatal end of input too.
    assert_eq!(read_msg(&reg, &[UORB_MAGIC_V1, 0x00, 0x01]), Err(ReadMsgError::Eof));
}

#[test]
fn test_header_for_instance_fields() {
    let reg = small_registry_fp();
    let desc = &reg.messages[0];
    let hdr = desc.header_for_instance(4, 777);
    assert_eq!(
        hdr,
        UorbHeader {
            version: UORB_MAGIC_V1,
            hash: desc.get_hash_code(),
            timestamp: 777,
            instance_id: 4,
            payload_len: 5,
        }
    );
}

#[test]
fn test_dispatch_by_hash_round_trip() {
    // Dispatch correctness: parse on a registered hash and that
    // message's own encoding yields the message; an unregistered hash
    // yields nothing.
    let reg = registry_with_fp("first", "uint8 a");
    let desc = &reg.messages[0];
    let vals = vec![FieldValue::U8(42)];
    let payload = desc.ser(&vals);
    let parsed = reg.parse(desc.get_hash_code(), payload.as_slice()).unwrap();
    assert_eq!(parsed.hash, desc.get_hash_code());
    assert_eq!(parsed.values, vals);
    assert!(reg.parse(desc.get_hash_code().wrapping_add(1), payload.as_slice()).is_none());
}

#[test]
fn test_write_then_read_second_message_type() {
    // Two registered types on one registry: each frame dispatches to
    // its own type by hash alone.
    let mut reg = Parser::new();
    reg.generate(b"one".to_vec(), &lines_of_fp("uint8 a")).unwrap();
    reg.generate(b"two".to_vec(), &lines_of_fp("uint16 b")).unwrap();
    let desc = &reg.messages[1];
    let vals = vec![FieldValue::U16(0xbeef)];
    let (hdr, msg) = desc.gen_ready_pair(&vals, 0, 0);
    let mut v = vec![];
    write_msg(&mut v, &reg, &hdr, &msg);
    let (h, m, _) = read_msg(&reg, v.as_slice()).unwrap();
    assert_eq!(h.hash, desc.get_hash_code());
    assert_eq!(m.values, vals);
}
