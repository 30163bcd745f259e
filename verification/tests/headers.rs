use mqtt_core::mqtt_headers::{ConnAckHeader, ConnectHeader, MqttHeaders, PublishHeader};
use mqtt_core::mqtt_types::{FramingError, MqttPacketType, ValidationError};

#[test]
fn test_parse() {
    let buffer = vec![0x10, 0x00];
    let headers = MqttHeaders::parse(&buffer).unwrap();
    assert_eq!(headers.packet_type, MqttPacketType::Connect);
    assert_eq!(headers.flags, 0);
    assert_eq!(headers.remaining_length, 0);
}

#[test]
fn test_to_bytes() {
    let headers = MqttHeaders {
        packet_type: MqttPacketType::Connect,
        flags: 0,
        remaining_length: 10,
        remaining_length_bytes: 2,
    };
    let buffer = headers.to_bytes();
    assert_eq!(buffer, vec![0x10, 0x0A]);
}

#[test]
fn test_connect_header_new() {
    let header = ConnectHeader::new("MQTT".to_string(), 4, 0, 60).unwrap();
    assert_eq!(header.protocol_name, "MQTT");
    assert_eq!(header.protocol_level, 4);
    assert_eq!(header.connect_flags, 0);
    assert_eq!(header.keep_alive, 60);
}

#[test]
fn test_connect_header_new_invalid_protocol_name() {
    let header = ConnectHeader::new("MQT".to_string(), 4, 0, 60);
    assert_eq!(header, Err("Invalid Protocol Name".to_string()));
}

#[test]
fn test_connect_header_from_bytes() {
    let data = vec![0x4D, 0x51, 0x54, 0x54, 0x04, 0x00, 0x00, 0x3C];
    let header = ConnectHeader::from_bytes(&data).unwrap();
    assert_eq!(header.protocol_name, "MQTT");
    assert_eq!(header.protocol_level, 4);
    assert_eq!(header.connect_flags, 0);
    assert_eq!(header.keep_alive, 60);
}

#[test]
fn test_connect_header_from_bytes_connect_flags() {
    let data = vec![0x4D, 0x51, 0x54, 0x54, 0x04, 0xC4, 0x00, 0x3C];
    let header = ConnectHeader::from_bytes(&data).unwrap();
    assert_eq!(header.protocol_name, "MQTT");
    assert_eq!(header.protocol_level, 4);
    assert_eq!(header.connect_flags, 0xC4);
    assert_eq!(header.keep_alive, 60);
}

#[test]
fn test_connack_header_from_bytes_valid() {
    let data = vec![0x01, 0x00];
    let header = ConnAckHeader::from_bytes(&data);
    assert_eq!(header.session_present, true);
    assert_eq!(header.return_code, 0);
}

#[test]
fn test_connack_header_from_bytes_invalid() {
    let data = vec![0xA1, 0x00];
    let header = ConnAckHeader::from_bytes(&data);
    assert_eq!(header.session_present, false);
    assert_eq!(header.return_code, 0);
}

#[test]
fn test_publish_header_from_bytes() {
    let data = vec![0x00, 0x04, 0x74, 0x65, 0x73, 0x74, 0x00, 0x01];
    let header = PublishHeader::from_bytes(&data).unwrap();
    assert_eq!(header.topic_name, "test");
    assert_eq!(header.packet_id, 1);
}

#[test]
fn variable_length_integer_boundaries() {
    let encode = |n: u32| MqttHeaders::new(MqttPacketType::Connect, 0, n).to_bytes()[1..].to_vec();
    assert_eq!(encode(0), vec![0x00]);
    assert_eq!(encode(127), vec![0x7F]);
    assert_eq!(encode(128), vec![0x80, 0x01]);
    assert_eq!(encode(16383), vec![0xFF, 0x7F]);
    assert_eq!(encode(16384), vec![0x80, 0x80, 0x01]);
}

#[test]
fn fixed_header_round_trip() {
    let cases = [
        (MqttPacketType::Connect, 0u8, 0u32),
        (MqttPacketType::Publish, 0b0010, 127),
        (MqttPacketType::Publish, 0b0100, 128),
        (MqttPacketType::Subscribe, 0b0001, 16384),
        (MqttPacketType::Disconnect, 0, 268435455),
    ];
    for (packet_type, flags, remaining_length) in cases {
        let header = MqttHeaders::new(packet_type, flags, remaining_length);
        let parsed = MqttHeaders::parse(&header.to_bytes()).unwrap();
        assert_eq!(parsed, header);
    }
}

#[test]
fn parse_rejects_short_buffer() {
    assert_eq!(MqttHeaders::parse(&[0x10]), Err(FramingError::BufferTooShort));
    assert_eq!(MqttHeaders::parse(&[]), Err(FramingError::BufferTooShort));
}

#[test]
fn parse_rejects_unknown_packet_kind() {
    assert_eq!(MqttHeaders::parse(&[0x00, 0x00]), Err(FramingError::UnknownPacketKind));
    assert_eq!(MqttHeaders::parse(&[0xF0, 0x00]), Err(FramingError::UnknownPacketKind));
}

#[test]
fn parse_rejects_malformed_length() {
    assert_eq!(MqttHeaders::parse(&[0x10, 0x80]), Err(FramingError::MalformedLength));
    assert_eq!(
        MqttHeaders::parse(&[0x10, 0x80, 0x80, 0x80, 0x80]),
        Err(FramingError::MalformedLength)
    );
}

#[test]
fn parse_accepts_four_length_bytes() {
    let header = MqttHeaders::parse(&[0x10, 0xFF, 0xFF, 0xFF, 0x7F]).unwrap();
    assert_eq!(header.remaining_length, 268435455);
    assert_eq!(header.remaining_length_bytes, 4);
    assert_eq!(header.incomming_byte_size(), 5);
}

#[test]
fn header_sizes() {
    let header = MqttHeaders::new(MqttPacketType::Connect, 0, 200);
    assert_eq!(header.size(), 5);
    assert_eq!(header.remaining_length_bytes, 2);
    assert_eq!(header.incomming_byte_size(), 3);
    assert_eq!(ConnectHeader::size(), 8);
    assert_eq!(ConnAckHeader::incomming_byte_size(), 2);
}

#[test]
fn connect_header_from_bytes_rejects_wrong_name() {
    let data = vec![0x4D, 0x51, 0x54, 0x58, 0x04, 0x00, 0x00, 0x3C];
    assert_eq!(ConnectHeader::from_bytes(&data), Err(ValidationError::InvalidProtocolName));
    assert_eq!(
        ConnectHeader::from_bytes(&[0x4D, 0x51, 0x54]),
        Err(ValidationError::TruncatedField)
    );
}

#[test]
fn publish_header_decodes_multibyte_topic() {
    let data = vec![0x00, 0x02, 0xC3, 0xA9, 0x00, 0x09];
    let header = PublishHeader::from_bytes(&data).unwrap();
    assert_eq!(header.topic_name, "\u{e9}");
    assert_eq!(header.packet_id, 9);
}

#[test]
fn publish_header_rejects_invalid_utf8_topic() {
    let data = vec![0x00, 0x02, 0xFF, 0xFE, 0x00, 0x09];
    assert_eq!(PublishHeader::from_bytes(&data), Err(ValidationError::InvalidUtf8));
}

#[test]
fn publish_header_to_bytes_round_trip() {
    let header = PublishHeader { topic_name: "sensors/temp".to_string(), packet_id: 513 };
    let bytes = header.to_bytes();
    let mut expected = vec![0x00, 0x0C];
    expected.extend_from_slice("sensors/temp".as_bytes());
    expected.extend_from_slice(&[0x02, 0x01]);
    assert_eq!(bytes, expected);
    let parsed = PublishHeader::from_bytes(&bytes).unwrap();
    assert_eq!(parsed.topic_name, "sensors/temp");
    assert_eq!(parsed.packet_id, 513);
}

#[test]
fn connack_header_to_bytes() {
    assert_eq!(ConnAckHeader::new(true, 0).to_bytes(), vec![0x01, 0x00]);
    assert_eq!(ConnAckHeader::new(false, 5).to_bytes(), vec![0x00, 0x05]);
}
