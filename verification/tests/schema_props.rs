use uorb_codec::parser::{SchemaError, UorbMsg};
use uorb_codec::registry::{BuildError, Parser};
use uorb_codec::types::UorbFieldType;

fn lines_of_sp(text: &str) -> Vec<Vec<u8>> {
    text.lines().map(|l| l.as_bytes().to_vec()).collect()
}

fn msg_from_sp(raw_name: &str, text: &str) -> UorbMsg {
    UorbMsg::from_lines(
        raw_name.as_bytes().to_vec(),
        raw_name.as_bytes().to_vec(),
        &lines_of_sp(text),
    )
    .expect("schema should parse")
}

#[test]
fn test_parse_type_primitives() {
    assert_eq!(UorbFieldType::parse_type(b"bool"), Some(UorbFieldType::Bool));
    assert_eq!(UorbFieldType::parse_type(b"char"), Some(UorbFieldType::Char));
    assert_eq!(UorbFieldType::parse_type(b"uint8"), Some(UorbFieldType::UInt8));
    assert_eq!(UorbFieldType::parse_type(b"uint16"), Some(UorbFieldType::UInt16));
    assert_eq!(UorbFieldType::parse_type(b"uint32"), Some(UorbFieldType::UInt32));
    assert_eq!(UorbFieldType::parse_type(b"uint64"), Some(UorbFieldType::UInt64));
    assert_eq!(UorbFieldType::parse_type(b"int8"), Some(UorbFieldType::Int8));
    assert_eq!(UorbFieldType::parse_type(b"int16"), Some(UorbFieldType::Int16));
    assert_eq!(UorbFieldType::parse_type(b"int32"), Some(UorbFieldType::Int32));
    assert_eq!(UorbFieldType::parse_type(b"int64"), Some(UorbFieldType::Int64));
    assert_eq!(UorbFieldType::parse_type(b"float32"), Some(UorbFieldType::Float32));
    assert_eq!(UorbFieldType::parse_type(b"float64"), Some(UorbFieldType::Float64));
}

#[test]
fn test_parse_type_arrays_and_failures() {
    assert_eq!(
        UorbFieldType::parse_type(b"float32[8]"),
        Some(UorbFieldType::Array(Box::new(UorbFieldType::Float32), 8))
    );
    assert_eq!(
        UorbFieldType::parse_type(b"uint8[2][3]"),
        Some(UorbFieldType::Array(
            Box::new(UorbFieldType::Array(Box::new(UorbFieldType::UInt8), 2)),
            3
        ))
    );
    assert_eq!(UorbFieldType::parse_type(b"velocity"), None);
    assert_eq!(UorbFieldType::parse_type(b""), None);
    assert_eq!(UorbFieldType::parse_type(b"uint8[]"), None);
    assert_eq!(UorbFieldType::parse_type(b"uint8[x]"), None);
    assert_eq!(UorbFieldType::parse_type(b"foo[3]"), None);
    assert_eq!(
        UorbFieldType::parse_type(b"uint8[0]"),
        Some(UorbFieldType::Array(Box::new(UorbFieldType::UInt8), 0))
    );
}

#[test]
fn test_rust_type_names() {
    assert_eq!(UorbFieldType::UInt8.rust_type(), b"u8".to_vec());
    assert_eq!(UorbFieldType::Float64.rust_type(), b"f64".to_vec());
    assert_eq!(
        UorbFieldType::Array(Box::new(UorbFieldType::Float32), 8).rust_type(),
        b"[f32;8]".to_vec()
    );
    assert_eq!(
        UorbFieldType::Array(Box::new(UorbFieldType::UInt8), 33).rust_type(),
        b"Vec<u8> /* 33 elements */".to_vec()
    );
}

#[test]
fn test_encoded_len_per_type() {
    assert_eq!(UorbFieldType::Bool.encoded_len(), 1);
    assert_eq!(UorbFieldType::UInt16.encoded_len(), 2);
    assert_eq!(UorbFieldType::Float32.encoded_len(), 4);
    assert_eq!(UorbFieldType::Int64.encoded_len(), 8);
    assert_eq!(UorbFieldType::Array(Box::new(UorbFieldType::Float32), 8).encoded_len(), 32);
}

#[test]
fn test_fields_and_doc_comments() {
    let msg = msg_from_sp("status", "uint64 timestamp\nuint8 mode # current mode");
    assert_eq!(msg.fields.len(), 2);
    assert_eq!(msg.fields[0].name, b"timestamp".to_vec());
    assert_eq!(msg.fields[0].uorbtype, UorbFieldType::UInt64);
    assert_eq!(msg.fields[0].description, None);
    assert_eq!(msg.fields[1].name, b"mode".to_vec());
    assert_eq!(msg.fields[1].description, Some(b" current mode".to_vec()));
}

#[test]
fn test_constants_are_metadata_not_fields() {
    let msg = msg_from_sp(
        "arming",
        "uint8 state\nuint8 ARMING_STATE_ARMED = 2 # armed\nuint8 ARMING_STATE_INIT=0",
    );
    assert_eq!(msg.fields.len(), 1);
    assert_eq!(msg.consts.len(), 2);
    assert_eq!(msg.consts[0].name, b"ARMING_STATE_ARMED".to_vec());
    assert_eq!(msg.consts[0].const_val, b"2".to_vec());
    assert_eq!(msg.consts[0].description, Some(b" armed".to_vec()));
    assert_eq!(msg.consts[1].name, b"ARMING_STATE_INIT".to_vec());
    assert_eq!(msg.consts[1].const_val, b"0".to_vec());
    // Constants occupy no wire space.
    assert_eq!(msg.encoded_len(), 1);
}

#[test]
fn test_topics_line_and_ignored_lines() {
    let msg = msg_from_sp(
        "gps",
        "uint8 fix_type\n\
         \n\
         # a plain comment line\n\
         gps gps_backup TOPICS # annotated\n\
         weird # multi # hash # line",
    );
    assert_eq!(msg.fields.len(), 1);
    assert_eq!(msg.topics, vec![b"gps".to_vec(), b"gps_backup".to_vec()]);
}

#[test]
fn test_bad_type_token_is_fatal() {
    let r = UorbMsg::from_lines(
        b"bad".to_vec(),
        b"Bad".to_vec(),
        &lines_of_sp("velocity speed"),
    );
    assert_eq!(r.unwrap_err(), SchemaError::UnknownType);
    let r = UorbMsg::from_lines(
        b"badconst".to_vec(),
        b"BadConst".to_vec(),
        &lines_of_sp("velocity MAX = 3"),
    );
    assert_eq!(r.unwrap_err(), SchemaError::UnknownType);
}

#[test]
fn test_single_token_line_is_skipped() {
    let msg = msg_from_sp("sparse", "uint8\nuint8 real_field");
    assert_eq!(msg.fields.len(), 1);
    assert_eq!(msg.fields[0].name, b"real_field".to_vec());
}

#[test]
fn test_hash_of_vehicle_gps_position() {
    // The identity hash of the raw name, the stable on-wire identity.
    let msg = msg_from_sp("vehicle_gps_position", "uint64 timestamp");
    assert_eq!(msg.name_hash_val, 38928);
    assert_eq!(msg.get_hash_code(), 38928);
}

#[test]
fn test_display_name_is_camel_cased() {
    let mut reg = Parser::new();
    reg.generate(b"vehicle_gps_position".to_vec(), &lines_of_sp("uint64 timestamp"))
        .unwrap();
    assert_eq!(reg.messages[0].name, b"VehicleGpsPosition".to_vec());
    assert_eq!(reg.messages[0].raw_name, b"vehicle_gps_position".to_vec());
}

#[test]
fn test_duplicate_hash_fails_build_naming_both() {
    let mut reg = Parser::new();
    reg.generate(b"vehicle_status".to_vec(), &lines_of_sp("uint8 a")).unwrap();
    let r = reg.generate(b"vehicle_status".to_vec(), &lines_of_sp("uint8 b"));
    match r {
        Err(BuildError::DuplicateHash { hash: _, first, second }) => {
            assert_eq!(first, b"vehicle_status".to_vec());
            assert_eq!(second, b"vehicle_status".to_vec());
        },
        _ => panic!("expected a duplicate-hash build error"),
    }
    // The failed registration leaves the registry unchanged.
    assert_eq!(reg.messages.len(), 1);
}

#[test]
fn test_syntax_error_aborts_registration() {
    let mut reg = Parser::new();
    let r = reg.generate(b"broken".to_vec(), &lines_of_sp("notatype x"));
    match r {
        Err(BuildError::Syntax(SchemaError::UnknownType)) => {},
        _ => panic!("expected a syntax build error"),
    }
    assert_eq!(reg.messages.len(), 0);
}

#[test]
fn test_const_value_stops_at_second_equals() {
    let msg = msg_from_sp("quirk", "uint8 A = 1 = 2");
    assert_eq!(msg.consts.len(), 1);
    assert_eq!(msg.consts[0].const_val, b"1".to_vec());
}

#[test]
fn test_array_count_too_large_is_fatal() {
    let r = UorbMsg::from_lines(
        b"huge".to_vec(),
        b"Huge".to_vec(),
        &lines_of_sp("uint8[99999999999999999999999] a"),
    );
    assert_eq!(r.unwrap_err(), SchemaError::UnknownType);
}
