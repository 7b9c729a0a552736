use uorb_codec::UORB_MAGIC_V1;
use uorb_codec::codec::FieldValue;
use uorb_codec::framing::write_msg;
use uorb_codec::registry::{Parser, UorbMessage};

fn lines_of_ed(text: &str) -> Vec<Vec<u8>> {
    text.lines().map(|l| l.as_bytes().to_vec()).collect()
}

fn registry_with_ed(raw_name: &str, text: &str) -> Parser {
    let mut reg = Parser::new();
    reg.generate(raw_name.as_bytes().to_vec(), &lines_of_ed(text))
        .expect("schema should register");
    reg
}

fn f_ed(x: f32) -> FieldValue {
    FieldValue::F32Bits(x.to_bits())
}

fn actuator_controls_registry_ed() -> Parser {
    registry_with_ed(
        "actuator_controls",
        "uint64 timestamp\nuint64 timestamp_sample\nfloat32[8] control",
    )
}

fn get_actuator_controls_ed() -> Vec<FieldValue> {
    let mut v = vec![FieldValue::U64(19), FieldValue::U64(21)];
    for i in 1..=8 {
        v.push(f_ed(i as f32));
    }
    v
}

fn vehicle_status_registry_ed() -> Parser {
    registry_with_ed(
        "vehicle_status",
        "uint64 timestamp\nuint8 nav_state\nuint8 arming_state\nuint8 hil_state\n\
         bool failsafe\nuint8 system_type\nuint8 system_id\nuint8 component_id\n\
         bool is_rotary_wing\nbool is_vtol\nbool vtol_fw_permanent_stab\n\
         bool in_transition_mode\nbool in_transition_to_fw\nbool rc_signal_lost\n\
         uint8 rc_input_mode\nbool data_link_lost\nbool high_latency_data_link_active\n\
         uint8 data_link_lost_counter\nbool engine_failure\nbool mission_failure\n\
         uint8 failure_detector_status\nuint32 onboard_control_sensors_present\n\
         uint32 onboard_control_sensors_enabled\nuint32 onboard_control_sensors_health",
    )
}

fn get_vehicle_status_ed() -> Vec<FieldValue> {
    vec![
        FieldValue::U64(83838333),
        FieldValue::U8(14),
        FieldValue::U8(15),
        FieldValue::U8(16),
        FieldValue::Bool(false),
        FieldValue::U8(99),
        FieldValue::U8(51),
        FieldValue::U8(49),
        FieldValue::Bool(true),
        FieldValue::Bool(true),
        FieldValue::Bool(true),
        FieldValue::Bool(false),
        FieldValue::Bool(false),
        FieldValue::Bool(false),
        FieldValue::U8(12),
        FieldValue::Bool(false),
        FieldValue::Bool(false),
        FieldValue::U8(0),
        FieldValue::Bool(false),
        FieldValue::Bool(false),
        FieldValue::U8(0),
        FieldValue::U32(12345),
        FieldValue::U32(12345),
        FieldValue::U32(12345),
    ]
}

#[test]
pub fn encode_decode_tests_test_deserialize_actuator_controls() {
    let reg = actuator_controls_registry_ed();
    let msg = &reg.messages[0];
    let vals = get_actuator_controls_ed();
    let encoded: Vec<u8> = msg.ser(&vals);
    let decoded = msg.deser(encoded.as_slice()).unwrap();
    assert_eq!(vals[0], decoded[0]);
}

#[test]
pub fn encode_decode_tests_test_deserialize_vehicle_status() {
    let reg = vehicle_status_registry_ed();
    let msg = &reg.messages[0];
    let vals = get_vehicle_status_ed();
    let encoded: Vec<u8> = msg.ser(&vals);
    let decoded = msg.deser(encoded.as_slice()).unwrap();
    assert_eq!(vals[23], decoded[23]);
}

#[test]
pub fn test_write_vehicle_status() {
    let mut v = vec![];
    let reg = vehicle_status_registry_ed();
    let desc = &reg.messages[0];
    let msg_data = get_vehicle_status_ed();
    let header = uorb_codec::framing::UorbHeader {
        version: UORB_MAGIC_V1,
        hash: desc.get_hash_code(),
        timestamp: 0,
        instance_id: 0,
        payload_len: desc.encoded_len() as u16,
    };
    let msg = UorbMessage { hash: desc.get_hash_code(), values: msg_data };

    write_msg(&mut v, &reg, &header, &msg);
}
