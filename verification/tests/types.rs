use mqtt_core::mqtt_types::MqttPacketType;

#[test]
fn test_from_u8() {
    assert_eq!(MqttPacketType::from_u8(1), Ok(MqttPacketType::Connect));
    assert_eq!(MqttPacketType::from_u8(2), Ok(MqttPacketType::ConnAck));
    assert_eq!(MqttPacketType::from_u8(3), Ok(MqttPacketType::Publish));
    assert_eq!(MqttPacketType::from_u8(4), Ok(MqttPacketType::PubAck));
    assert_eq!(MqttPacketType::from_u8(5), Ok(MqttPacketType::PubRec));
    assert_eq!(MqttPacketType::from_u8(6), Ok(MqttPacketType::PubRel));
    assert_eq!(MqttPacketType::from_u8(7), Ok(MqttPacketType::PubComp));
    assert_eq!(MqttPacketType::from_u8(8), Ok(MqttPacketType::Subscribe));
    assert_eq!(MqttPacketType::from_u8(9), Ok(MqttPacketType::SubAck));
    assert_eq!(MqttPacketType::from_u8(10), Ok(MqttPacketType::Unsubscribe));
    assert_eq!(MqttPacketType::from_u8(11), Ok(MqttPacketType::UnsubAck));
    assert_eq!(MqttPacketType::from_u8(12), Ok(MqttPacketType::PingReq));
    assert_eq!(MqttPacketType::from_u8(13), Ok(MqttPacketType::PingResp));
    assert_eq!(MqttPacketType::from_u8(14), Ok(MqttPacketType::Disconnect));
    assert_eq!(MqttPacketType::from_u8(15), Err("Invalid MQTT Packet Type"));
}

#[test]
fn from_u8_rejects_zero() {
    assert_eq!(MqttPacketType::from_u8(0), Err("Invalid MQTT Packet Type"));
    assert_eq!(MqttPacketType::from_u8(0xFF), Err("Invalid MQTT Packet Type"));
}

#[test]
fn value_inverts_from_u8() {
    for v in 1u8..=14 {
        assert_eq!(MqttPacketType::from_u8(v).unwrap().value(), v);
    }
}
