use uorb_codec::codec::FieldValue;
use uorb_codec::registry::Parser;

fn lines_of_ser(text: &str) -> Vec<Vec<u8>> {
    text.lines().map(|l| l.as_bytes().to_vec()).collect()
}

fn registry_with_ser(raw_name: &str, text: &str) -> Parser {
    let mut reg = Parser::new();
    reg.generate(raw_name.as_bytes().to_vec(), &lines_of_ser(text))
        .expect("schema should register");
    reg
}

fn f_ser(x: f32) -> FieldValue {
    FieldValue::F32Bits(x.to_bits())
}

fn actuator_controls_registry_ser() -> Parser {
    registry_with_ser(
        "actuator_controls",
        "uint64 timestamp\nuint64 timestamp_sample\nfloat32[8] control",
    )
}

fn get_actuator_controls_ser() -> Vec<FieldValue> {
    let mut v = vec![FieldValue::U64(19), FieldValue::U64(21)];
    for i in 1..=8 {
        v.push(f_ser(i as f32));
    }
    v
}

fn vehicle_status_registry_ser() -> Parser {
    registry_with_ser(
        "vehicle_status",
        "uint64 timestamp\nuint8 nav_state\nuint8 arming_state\nuint8 hil_state\n\
         bool failsafe\nuint8 system_type\nuint8 system_id\nuint8 component_id\n\
         bool is_rotary_wing\nbool is_vtol\nbool vtol_fw_permanent_stab\n\
         bool in_transition_mode\nbool in_transition_to_fw\nbool rc_signal_lost\n\
         uint8 rc_input_mode\nbool data_link_lost\nbool high_latency_data_link_active\n\
         uint8 data_link_lost_counter\nbool engine_failure\nbool mission_failure\n\
         uint8 failure_detector_status\nuint32 onboard_control_sensors_present\n\
         uint32 onboard_control_sensors_enabled\nuint32 onboard_control_sensors_health",
    )
}

fn get_vehicle_status_ser() -> Vec<FieldValue> {
    vec![
        FieldValue::U64(83838333),
        FieldValue::U8(14),
        FieldValue::U8(15),
        FieldValue::U8(16),
        FieldValue::Bool(false),
        FieldValue::U8(99),
        FieldValue::U8(51),
        FieldValue::U8(49),
        FieldValue::Bool(true),
        FieldValue::Bool(true),
        FieldValue::Bool(true),
        FieldValue::Bool(false),
        FieldValue::Bool(false),
        FieldValue::Bool(false),
        FieldValue::U8(12),
        FieldValue::Bool(false),
        FieldValue::Bool(false),
        FieldValue::U8(0),
        FieldValue::Bool(false),
        FieldValue::Bool(false),
        FieldValue::U8(0),
        FieldValue::U32(12345),
        FieldValue::U32(12345),
        FieldValue::U32(12345),
    ]
}

fn sensor_gyro_registry_ser() -> Parser {
    registry_with_ser(
        "sensor_gyro",
        "uint32 device_id\nuint64 timestamp\nuint64 error_count\n\
         float32 x\nfloat32 y\nfloat32 z\nuint32 integral_dt\n\
         float32 x_integral\nfloat32 y_integral\nfloat32 z_integral\n\
         float32 temperature\nfloat32 scaling\nint16 x_raw\nint16 y_raw\nint16 z_raw",
    )
}

fn get_sensor_gyro_ser() -> Vec<FieldValue> {
    let gyro_rebase_factor: f32 = 1e3;
    let xgyro: f32 = 1111.0;
    let ygyro: f32 = 2222.0;
    let zgyro: f32 = 3333.0;
    vec![
        FieldValue::U32(6887),
        FieldValue::U64(0x1ed59200230008),
        FieldValue::U64(0),
        f_ser(xgyro),
        f_ser(ygyro),
        f_ser(zgyro),
        FieldValue::U32(5 * 1000000),
        f_ser(1.0),
        f_ser(1.0),
        f_ser(1.0),
        f_ser(25.0),
        f_ser(0.0),
        FieldValue::I16((xgyro * gyro_rebase_factor) as i16),
        FieldValue::I16((ygyro * gyro_rebase_factor) as i16),
        FieldValue::I16((zgyro * gyro_rebase_factor) as i16),
    ]
}

#[test]
pub fn serialization_tests_test_deserialize_actuator_controls() {
    let reg = actuator_controls_registry_ser();
    let msg = &reg.messages[0];
    let msg_data = get_actuator_controls_ser();
    let encoded: Vec<u8> = msg.ser(&msg_data);
    let decoded = msg.deser(encoded.as_slice()).unwrap();
    assert_eq!(msg_data[0], decoded[0]);
}

#[test]
pub fn serialization_tests_test_deserialize_vehicle_status() {
    let reg = vehicle_status_registry_ser();
    let msg = &reg.messages[0];
    let msg_data = get_vehicle_status_ser();
    let encoded: Vec<u8> = msg.ser(&msg_data);
    let decoded = msg.deser(encoded.as_slice()).unwrap();
    assert_eq!(msg_data[23], decoded[23]);
}

#[test]
pub fn test_deserialize_sensor_gyro() {
    let reg = sensor_gyro_registry_ser();
    let msg = &reg.messages[0];
    let msg_data = get_sensor_gyro_ser();
    let encoded: Vec<u8> = msg.ser(&msg_data);
    let decoded = msg.deser(encoded.as_slice()).unwrap();
    assert_eq!(msg_data[1], decoded[1]);
}
