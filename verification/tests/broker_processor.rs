use mqtt_core::broker::{Broker, ClientState, ConnectionStatus};
use mqtt_core::mqtt_headers::{MqttHeaders, PublishHeader};
use mqtt_core::mqtt_payloads::{Payload, PublishPayload};
use mqtt_core::mqtt_types::{MqttPacketType, PublishActions};
use mqtt_core::packets::connect::Connect;
use mqtt_core::packets::publish::Publish;
use mqtt_core::processor::{
    process_command, process_connack, process_connect, process_publish, BrokerCommand,
    BrokerResponse, MqttPacketDispatcher, ProcessError,
};

fn connect_frame(client_id: &str, connect_flags: u8) -> Vec<u8> {
    let mut data = vec![0x10, 0x00];
    data.extend_from_slice(&[0x4D, 0x51, 0x54, 0x54, 0x04, connect_flags, 0x00, 0x3C]);
    data.extend_from_slice(&[0x00, client_id.len() as u8]);
    data.extend_from_slice(client_id.as_bytes());
    if connect_flags & 0x04 != 0 {
        data.extend_from_slice(&[0x00, 0x02, 0x77, 0x74]); // will topic "wt"
        data.extend_from_slice(&[0x00, 0x02, 0x77, 0x6D]); // will message "wm"
    }
    if connect_flags & 0x80 != 0 {
        data.extend_from_slice(&[0x00, 0x02, 0x75, 0x6E]); // username "un"
    }
    if connect_flags & 0x40 != 0 {
        data.extend_from_slice(&[0x00, 0x02, 0x70, 0x77]); // password "pw"
    }
    data
}

fn publish_packet(topic: &str, flags: u8, packet_id: u16) -> Publish {
    Publish::new(
        MqttHeaders::new(MqttPacketType::Publish, flags, 0),
        PublishHeader {
            topic_name: topic.to_string(),
            packet_id,
        },
        Payload::Publish(PublishPayload {
            payload: vec![0x01, 0x02],
        }),
    )
}

#[test]
fn scenario_connect_with_will_and_username() {
    // Flags 0xC4: username and password and will set, clean-session clear.
    let mut broker = Broker::new();
    let packet = Connect::from_bytes(connect_frame("test", 0xC4)).unwrap();
    let ack = process_connect(&mut broker, &packet, 10).unwrap();
    assert_eq!(ack.variable_header.return_code, 0);
    assert_eq!(ack.variable_header.session_present, true);
    assert!(broker.is_client_connected("test"));
    let state = broker.get_client("test").unwrap();
    assert_eq!(state.client_id, "test");
    assert_eq!(state.keep_alive, 60);
    assert_eq!(state.last_seen, 10);
}

#[test]
fn scenario_publish_reaches_connected_subscribers_only() {
    let mut broker = Broker::new();
    broker.add_client("alice", 60, true, 0);
    broker.add_client("bob", 60, true, 0);
    broker.add_client("carol", 60, true, 0);
    assert!(broker.subscribe("alice", "sensors/temp".to_string()));
    assert!(broker.subscribe("bob", "sensors/temp".to_string()));
    assert!(broker.subscribe("carol", "sensors/temp".to_string()));
    broker.mark_disconnected("carol");

    let packet = publish_packet("sensors/temp", 0b0000, 1);
    let (action, recipients) = process_publish(&mut broker, &packet, 5).unwrap();
    assert_eq!(action, PublishActions::NoAck);
    assert_eq!(recipients, vec!["alice".to_string(), "bob".to_string()]);

    // QoS 0 delivery refreshed the recipients' liveness and nobody else's.
    assert_eq!(broker.get_client("alice").unwrap().last_seen, 5);
    assert_eq!(broker.get_client("bob").unwrap().last_seen, 5);
    assert_eq!(broker.get_client("carol").unwrap().last_seen, 0);
}

#[test]
fn scenario_publish_without_subscribers() {
    let mut broker = Broker::new();
    broker.add_client("alice", 60, true, 0);
    let packet = publish_packet("nobody/listens", 0b0000, 1);
    let r = process_publish(&mut broker, &packet, 5);
    assert_eq!(r, Err(ProcessError::NoSubscribers));
    // Registry unchanged: the entry is intact and unrefreshed.
    let state = broker.get_client("alice").unwrap();
    assert_eq!(state.last_seen, 0);
    assert_eq!(state.subscriptions.len(), 0);
}

#[test]
fn scenario_duplicate_connect_evicts_first_session() {
    let mut broker = Broker::new();
    let first = Connect::from_bytes(connect_frame("dup", 0x00)).unwrap();
    process_connect(&mut broker, &first, 1).unwrap();
    assert!(broker.subscribe("dup", "t".to_string()));

    let second = Connect::from_bytes(connect_frame("dup", 0x00)).unwrap();
    process_connect(&mut broker, &second, 2).unwrap();
    assert!(broker.is_client_connected("dup"));
    // The fresh session replaced the old one: subscriptions are gone.
    let state = broker.get_client("dup").unwrap();
    assert_eq!(state.subscriptions.len(), 0);
    assert_eq!(state.last_seen, 2);
    // Exactly one entry: removing it leaves none.
    broker.remove_client("dup");
    assert!(!broker.is_client_connected("dup"));
}

#[test]
fn publish_is_idempotent_on_recipients() {
    let mut broker = Broker::new();
    broker.add_client("alice", 60, true, 0);
    broker.add_client("bob", 60, true, 0);
    assert!(broker.subscribe("alice", "t".to_string()));
    assert!(broker.subscribe("bob", "t".to_string()));

    let packet = publish_packet("t", 0b0000, 1);
    let (_, first) = process_publish(&mut broker, &packet, 5).unwrap();
    let (_, second) = process_publish(&mut broker, &packet, 6).unwrap();
    assert_eq!(first, second);
}

#[test]
fn qos1_publish_queues_pending_and_acknowledge_clears_it() {
    let mut broker = Broker::new();
    broker.add_client("alice", 60, true, 0);
    assert!(broker.subscribe("alice", "t".to_string()));

    let packet = publish_packet("t", 0b0010, 7);
    let (action, recipients) = process_publish(&mut broker, &packet, 5).unwrap();
    assert_eq!(action, PublishActions::PublishAck);
    assert_eq!(recipients, vec!["alice".to_string()]);
    let pending = &broker.get_client("alice").unwrap().pending;
    assert_eq!(pending.len(), 1);
    assert_eq!(pending[0].packet_id, 7);
    assert_eq!(pending[0].bytes, packet.to_bytes());

    broker.acknowledge("alice", 7);
    assert_eq!(broker.get_client("alice").unwrap().pending.len(), 0);
}

#[test]
fn qos1_publish_held_for_disconnected_retainer() {
    let mut broker = Broker::new();
    broker.add_client("alice", 60, true, 0);
    broker.add_client("keeper", 60, false, 0);
    broker.add_client("dropper", 60, true, 0);
    assert!(broker.subscribe("alice", "t".to_string()));
    assert!(broker.subscribe("keeper", "t".to_string()));
    assert!(broker.subscribe("dropper", "t".to_string()));
    broker.mark_disconnected("keeper");
    broker.mark_disconnected("dropper");

    let packet = publish_packet("t", 0b0100, 9);
    let (action, recipients) = process_publish(&mut broker, &packet, 5).unwrap();
    assert_eq!(action, PublishActions::PublishRec);
    assert_eq!(recipients, vec!["alice".to_string()]);
    // Held for the subscriber that kept session state, discarded for the one
    // that asked for a clean session.
    assert_eq!(broker.get_client("keeper").unwrap().pending.len(), 1);
    assert_eq!(broker.get_client("dropper").unwrap().pending.len(), 0);
}

#[test]
fn qos3_publish_is_a_protocol_violation() {
    let mut broker = Broker::new();
    broker.add_client("alice", 60, true, 0);
    assert!(broker.subscribe("alice", "t".to_string()));
    let packet = publish_packet("t", 0b0110, 1);
    assert_eq!(process_publish(&mut broker, &packet, 5), Err(ProcessError::ProtocolViolation));
    assert_eq!(broker.get_client("alice").unwrap().pending.len(), 0);
}

#[test]
fn connack_command_is_a_protocol_violation() {
    let mut broker = Broker::new();
    assert_eq!(process_connack(&mut broker), Err(ProcessError::ProtocolViolation));
}

#[test]
fn connect_command_without_connect_payload() {
    let mut broker = Broker::new();
    let packet = Connect::new(
        MqttHeaders::new(MqttPacketType::Connect, 0, 0),
        mqtt_core::mqtt_headers::ConnectHeader {
            protocol_name: "MQTT".to_string(),
            protocol_level: 4,
            connect_flags: 0,
            keep_alive: 60,
        },
        Payload::Empty(mqtt_core::mqtt_payloads::EmptyPayload),
    );
    assert!(matches!(
        process_connect(&mut broker, &packet, 1),
        Err(ProcessError::NotConnectPayload)
    ));
    assert!(!broker.is_client_connected("test"));
}

#[test]
fn connect_command_without_client_id() {
    let mut broker = Broker::new();
    let packet = Connect::new(
        MqttHeaders::new(MqttPacketType::Connect, 0, 0),
        mqtt_core::mqtt_headers::ConnectHeader {
            protocol_name: "MQTT".to_string(),
            protocol_level: 4,
            connect_flags: 0,
            keep_alive: 60,
        },
        Payload::Connect(mqtt_core::mqtt_payloads::ConnectPayload {
            client_id: None,
            will_topic: None,
            will_message: None,
            username: None,
            password: None,
        }),
    );
    assert!(matches!(
        process_connect(&mut broker, &packet, 1),
        Err(ProcessError::MissingClientId)
    ));
}

#[test]
fn command_processor_routes_commands() {
    let mut broker = Broker::new();
    let connect = Connect::from_bytes(connect_frame("cmd", 0x02)).unwrap();
    match process_command(&mut broker, BrokerCommand::Connect { packet: connect }, 1) {
        BrokerResponse::Connect(Ok(ack)) => {
            assert_eq!(ack.variable_header.session_present, false);
            assert_eq!(ack.variable_header.return_code, 0);
        }
        _ => panic!("unexpected response"),
    }
    match process_command(&mut broker, BrokerCommand::ConnAck, 2) {
        BrokerResponse::ConnAck(r) => assert_eq!(r, Err(ProcessError::ProtocolViolation)),
        _ => panic!("unexpected response"),
    }
    assert!(broker.subscribe("cmd", "t".to_string()));
    let publish = publish_packet("t", 0b0000, 1);
    match process_command(&mut broker, BrokerCommand::Publish { packet: publish }, 3) {
        BrokerResponse::Publish(Ok((action, recipients))) => {
            assert_eq!(action, PublishActions::NoAck);
            assert_eq!(recipients, vec!["cmd".to_string()]);
        }
        _ => panic!("unexpected response"),
    }
}

#[test]
fn dispatcher_answers_connect_with_connack() {
    let dispatcher = MqttPacketDispatcher::new().unwrap();
    let mut broker = Broker::new();
    let frame = connect_frame("disp", 0x02);
    let reply = dispatcher.dispatch(MqttPacketType::Connect, &frame, &mut broker, 1);
    assert_eq!(reply, vec![0x20, 0x02, 0x00, 0x00]);
    assert!(broker.is_client_connected("disp"));

    let silent = dispatcher.dispatch(MqttPacketType::PingReq, &frame, &mut broker, 2);
    assert!(silent.is_empty());
}

#[test]
fn dispatcher_rejects_malformed_connect_silently() {
    let mut broker = Broker::new();
    let reply = MqttPacketDispatcher::handle_connect(&vec![0x10], &mut broker, 1);
    assert!(reply.is_empty());
    // A client id over 23 bytes is rejected and nothing is installed.
    let frame = connect_frame("abcdefghijklmnopqrstuvwxyz", 0x00);
    let reply = MqttPacketDispatcher::handle_connect(&frame, &mut broker, 1);
    assert!(reply.is_empty());
    assert!(!broker.is_client_connected("abcdefghijklmnopqrstuvwxyz"));
}

#[test]
fn client_state_liveness() {
    let mut state = ClientState::new("c", 60, true, 100);
    assert_eq!(state.connected_status, ConnectionStatus::Connected);
    assert!(state.is_alive(100));
    assert!(state.is_alive(160));
    assert!(!state.is_alive(161));
    assert!(state.is_alive(50));
    state.update_last_seen(200);
    assert_eq!(state.last_seen, 200);
    assert!(state.is_alive(260));
}

#[test]
fn update_client_activity_refreshes_only_that_client() {
    let mut broker = Broker::new();
    broker.add_client("a", 60, true, 0);
    broker.add_client("b", 60, true, 0);
    broker.update_client_activity("a", 42);
    assert_eq!(broker.get_client("a").unwrap().last_seen, 42);
    assert_eq!(broker.get_client("b").unwrap().last_seen, 0);
    broker.update_client_activity("ghost", 99);
    assert!(!broker.is_client_connected("ghost"));
}

#[test]
fn subscribe_is_idempotent_per_topic() {
    let mut broker = Broker::new();
    broker.add_client("a", 60, true, 0);
    assert!(broker.subscribe("a", "t".to_string()));
    assert!(broker.subscribe("a", "t".to_string()));
    assert_eq!(broker.get_client("a").unwrap().subscriptions.len(), 1);
    assert!(!broker.subscribe("ghost", "t".to_string()));
}

#[test]
fn remove_client_returns_its_id() {
    let mut broker = Broker::new();
    broker.add_client("gone", 60, true, 0);
    let id = broker.remove_client("gone");
    assert_eq!(id, "gone");
    assert!(!broker.is_client_connected("gone"));
}
