use mqtt_core::mqtt_headers::{
    ConnectHeader, PublishHeader, SubscribeHeader, VariableHeader,
};
use mqtt_core::mqtt_payloads::{Payload, PayloadFactory};
use mqtt_core::mqtt_types::ValidationError;

#[test]
fn test_connect_payload_empty() {
    let connect_header = ConnectHeader {
        connect_flags: 0b00000000,
        keep_alive: 60,
        protocol_name: "MQTT".to_string(),
        protocol_level: 4,
    };
    let payload_data: Vec<u8> = vec![
        0x00, 0x04, 0x74, 0x65, 0x73, 0x74, // Client ID: test
        0x00, 0x00, // Will Topic:
        0x00, 0x00, // Will Message:
        0x00, 0x00, // User Name:
        0x00, 0x00, // Password:
    ];
    let payload =
        PayloadFactory::parse_payload(&VariableHeader::Connect(connect_header), payload_data)
            .unwrap();
    match payload {
        Payload::Connect(connect_payload) => {
            assert_eq!(connect_payload.client_id.unwrap(), "test");
            assert_eq!(connect_payload.will_topic.unwrap(), "");
            assert_eq!(connect_payload.will_message.unwrap(), "");
            assert_eq!(connect_payload.username.unwrap(), "");
            assert_eq!(connect_payload.password.unwrap(), "");
        }
        _ => panic!("Invalid payload type"),
    }
}

#[test]
fn test_connect_payload_non_empty() {
    let connect_header = ConnectHeader {
        connect_flags: 0b11000100,
        keep_alive: 60,
        protocol_name: "MQTT".to_string(),
        protocol_level: 4,
    };
    let payload_data: Vec<u8> = vec![
        0x00, 0x04, 0x74, 0x65, 0x73, 0x74, // Client ID: test
        0x00, 0x04, 0x74, 0x65, 0x73, 0x74, // Will Topic: test
        0x00, 0x04, 0x74, 0x65, 0x73, 0x74, // Will Message: test
        0x00, 0x04, 0x74, 0x65, 0x73, 0x74, // User Name: test
        0x00, 0x04, 0x74, 0x65, 0x73, 0x74, // Password: test
    ];
    let payload =
        PayloadFactory::parse_payload(&VariableHeader::Connect(connect_header), payload_data)
            .unwrap();
    match payload {
        Payload::Connect(connect_payload) => {
            assert_eq!(connect_payload.client_id.unwrap(), "test");
            assert_eq!(connect_payload.will_topic.unwrap(), "test");
            assert_eq!(connect_payload.will_message.unwrap(), "test");
            assert_eq!(connect_payload.username.unwrap(), "test");
            assert_eq!(connect_payload.password.unwrap(), "test");
        }
        _ => panic!("Invalid payload type"),
    }
}

#[test]
fn test_publish_payload() {
    let publish_header = PublishHeader { topic_name: "test".to_string(), packet_id: 0 };
    let payload_data: Vec<u8> = vec![0x00, 0x01, 0x02, 0x03];
    let payload =
        PayloadFactory::parse_payload(&VariableHeader::Publish(publish_header), payload_data)
            .unwrap();
    match payload {
        Payload::Publish(publish_payload) => {
            assert_eq!(publish_payload.payload, vec![0x00, 0x01, 0x02, 0x03]);
        }
        _ => panic!("Invalid payload type"),
    }
}

#[test]
fn test_subscribe_payload() {
    let subscribe_header = SubscribeHeader { packet_id: 0 };
    let payload_data: Vec<u8> = vec![
        0x00, 0x04, 0x74, 0x65, 0x73, 0x74, // Subscription Topic: test
        0x01, // QoS: 1
    ];
    let payload =
        PayloadFactory::parse_payload(&VariableHeader::Subscribe(subscribe_header), payload_data)
            .unwrap();
    match payload {
        Payload::Subscribe(subscribe_payload) => {
            assert_eq!(subscribe_payload.subscription_topic, "test");
            assert_eq!(subscribe_payload.qos, 1);
        }
        _ => panic!("Invalid payload type"),
    }
}

fn connect_header_with_flags(connect_flags: u8) -> VariableHeader {
    VariableHeader::Connect(ConnectHeader {
        connect_flags,
        keep_alive: 60,
        protocol_name: "MQTT".to_string(),
        protocol_level: 4,
    })
}

fn client_id_payload(len: usize) -> Vec<u8> {
    let mut data = vec![(len >> 8) as u8, (len & 0xFF) as u8];
    data.extend(std::iter::repeat(0x61).take(len));
    data
}

#[test]
fn client_id_bounds() {
    let empty = PayloadFactory::parse_payload(&connect_header_with_flags(0), client_id_payload(0));
    assert!(matches!(empty, Err(ValidationError::EmptyClientId)));

    let at_limit =
        PayloadFactory::parse_payload(&connect_header_with_flags(0), client_id_payload(23));
    match at_limit.unwrap() {
        Payload::Connect(p) => assert_eq!(p.client_id.unwrap().len(), 23),
        _ => panic!("Invalid payload type"),
    }

    let too_long =
        PayloadFactory::parse_payload(&connect_header_with_flags(0), client_id_payload(24));
    assert!(matches!(too_long, Err(ValidationError::ClientIdTooLong)));
}

#[test]
fn qos_byte_validation() {
    let subscribe = VariableHeader::Subscribe(SubscribeHeader { packet_id: 0 });
    let mut rejected = vec![0x00, 0x01, 0x74];
    rejected.push(0b11111101);
    let r = PayloadFactory::parse_payload(&subscribe, rejected);
    assert!(matches!(r, Err(ValidationError::InvalidQoS)));

    let subscribe = VariableHeader::Subscribe(SubscribeHeader { packet_id: 0 });
    let mut accepted = vec![0x00, 0x01, 0x74];
    accepted.push(0b00000010);
    match PayloadFactory::parse_payload(&subscribe, accepted).unwrap() {
        Payload::Subscribe(p) => assert_eq!(p.qos, 2),
        _ => panic!("Invalid payload type"),
    }
}

#[test]
fn connect_payload_rejects_truncated_field() {
    let r = PayloadFactory::parse_payload(&connect_header_with_flags(0), vec![0x00, 0x05, 0x61]);
    assert!(matches!(r, Err(ValidationError::TruncatedField)));
    let r = PayloadFactory::parse_payload(&connect_header_with_flags(0), vec![0x00]);
    assert!(matches!(r, Err(ValidationError::TruncatedField)));
}

#[test]
fn connect_payload_rejects_invalid_utf8() {
    let r = PayloadFactory::parse_payload(&connect_header_with_flags(0), vec![0x00, 0x01, 0xFF]);
    assert!(matches!(r, Err(ValidationError::InvalidUtf8)));
}

#[test]
fn connect_payload_decodes_multibyte_client_id() {
    let data = vec![0x00, 0x02, 0xC3, 0xA9];
    match PayloadFactory::parse_payload(&connect_header_with_flags(0), data).unwrap() {
        Payload::Connect(p) => assert_eq!(p.client_id.unwrap(), "\u{e9}"),
        _ => panic!("Invalid payload type"),
    }
}

#[test]
fn subscribe_payload_rejects_missing_qos_byte() {
    let subscribe = VariableHeader::Subscribe(SubscribeHeader { packet_id: 0 });
    let r = PayloadFactory::parse_payload(&subscribe, vec![0x00, 0x01, 0x74]);
    assert!(matches!(r, Err(ValidationError::TruncatedField)));
}

#[test]
fn connack_payload_is_empty() {
    let header = VariableHeader::ConnAck(mqtt_core::mqtt_headers::ConnAckHeader {
        session_present: false,
        return_code: 0,
    });
    match PayloadFactory::parse_payload(&header, vec![]).unwrap() {
        Payload::Empty(_) => {}
        _ => panic!("Invalid payload type"),
    }
}
