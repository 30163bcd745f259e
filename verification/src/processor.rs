use vstd::prelude::*;

use vstd::utf8::encode_utf8;

use crate::broker::{
    spec_contains, spec_enqueue_pending, spec_find, spec_fresh_client, spec_matches,
    spec_recipients, spec_touch_recipients, Broker, ClientStateModel,
};
use crate::mqtt_payloads::{clean_session_flag, PayloadModel};
use crate::mqtt_types::{MqttPacketType, PublishActions};
use crate::packets::connack::{spec_success_connack, ConnAck, ConnAckModel};
use crate::packets::connect::{spec_parse_connect_packet, Connect, ConnectModel};
use crate::packets::publish::{spec_publish_bytes, Publish, PublishModel};

verus! {

/// Why the command processor rejected a command; the registry is never
/// touched when one of these comes back.
#[derive(Debug, Clone, Copy, PartialEq, Eq, Structural)]
pub enum ProcessError {
    /// A Connect command whose packet does not carry a Connect payload.
    NotConnectPayload,
    /// A Connect payload without a client id.
    MissingClientId,
    /// A packet kind a server must never receive, or QoS bits set to three.
    ProtocolViolation,
    /// A Publish whose topic no connected client subscribes to.
    NoSubscribers,
}

/// The registry after a successful Connect for `id`: any entry under the
/// same id is evicted, and a fresh connected entry is appended.
pub open spec fn spec_connect_result_registry(
    reg: Seq<ClientStateModel>,
    id: Seq<char>,
    keep_alive: u64,
    clean_session: bool,
    now: u64,
) -> Seq<ClientStateModel> {
    (if spec_contains(reg, id) {
        reg.remove(spec_find(reg, id))
    } else {
        reg
    }).push(spec_fresh_client(id, keep_alive, clean_session, now))
}

/// Everything a Connect command promises, over the registries before and
/// after and the response.
pub open spec fn spec_connect_post(
    pre: Seq<ClientStateModel>,
    post: Seq<ClientStateModel>,
    packet: ConnectModel,
    now: u64,
    r: Result<ConnAckModel, ProcessError>,
) -> bool {
    match packet.payload {
        PayloadModel::Connect(p) => match p.client_id {
            Some(id) => {
                &&& post == spec_connect_result_registry(
                    pre,
                    id,
                    packet.variable_header.keep_alive as u64,
                    clean_session_flag(packet.variable_header.connect_flags),
                    now,
                )
                &&& r == Ok::<ConnAckModel, ProcessError>(
                    spec_success_connack(packet.variable_header.connect_flags),
                )
            },
            None => post == pre && r == Err::<ConnAckModel, ProcessError>(
                ProcessError::MissingClientId,
            ),
        },
        _ => post == pre && r == Err::<ConnAckModel, ProcessError>(
            ProcessError::NotConnectPayload,
        ),
    }
}

/// The QoS level a Publish fixed header carries, in bits 1 and 2 of its
/// flags.
pub open spec fn spec_publish_qos(flags: u8) -> u8 {
    (flags >> 1) & 0x03
}

/// Everything a Publish command promises, over the registries before and
/// after and the response. QoS three is rejected; a publish nobody
/// subscribes to is rejected; otherwise the connected subscribers are the
/// recipients, QoS 0 refreshes their liveness, and QoS 1/2 queues the
/// packet bytes for acknowledgment or redelivery.
pub open spec fn spec_publish_post(
    pre: Seq<ClientStateModel>,
    post: Seq<ClientStateModel>,
    packet: PublishModel,
    now: u64,
    r: Result<(PublishActions, Seq<Seq<char>>), ProcessError>,
) -> bool {
    let topic = packet.variable_header.topic_name;
    let qos = spec_publish_qos(packet.fixed_header.flags);
    if qos == 3 {
        post == pre && r == Err::<(PublishActions, Seq<Seq<char>>), ProcessError>(
            ProcessError::ProtocolViolation,
        )
    } else if spec_recipients(pre, topic).len() == 0 {
        post == pre && r == Err::<(PublishActions, Seq<Seq<char>>), ProcessError>(
            ProcessError::NoSubscribers,
        )
    } else {
        match r {
            Ok(p) => {
                &&& p.1 == spec_recipients(pre, topic)
                &&& (qos == 0 ==> p.0 == PublishActions::NoAck && post == spec_touch_recipients(
                    pre,
                    topic,
                    now,
                ))
                &&& (qos == 1 ==> p.0 == PublishActions::PublishAck && post
                    == spec_enqueue_pending(
                    pre,
                    topic,
                    now,
                    packet.variable_header.packet_id,
                    spec_publish_bytes(packet),
                ))
                &&& (qos == 2 ==> p.0 == PublishActions::PublishRec && post
                    == spec_enqueue_pending(
                    pre,
                    topic,
                    now,
                    packet.variable_header.packet_id,
                    spec_publish_bytes(packet),
                ))
            },
            Err(_) => false,
        }
    }
}

/// Apply a Connect command: evict any session under the same client id,
/// install a fresh one, and answer with the serialized-ready accept
/// ConnAck. A packet without a Connect payload or client id changes
/// nothing.
pub fn process_connect(broker: &mut Broker, packet: &Connect, now: u64) -> (r: Result<
    ConnAck,
    ProcessError,
>)
    requires
        old(broker).wf(),
    ensures
        final(broker).wf(),
        spec_connect_post(
            old(broker)@,
            final(broker)@,
            packet@,
            now,
            (match r {
                Ok(a) => Ok::<ConnAckModel, ProcessError>(a@),
                Err(e) => Err(e),
            }),
        ),
{
    let connect_payload = match &packet.payload {
        crate::mqtt_payloads::Payload::Connect(p) => p,
        _ => {
            return Err(ProcessError::NotConnectPayload);
        },
    };
    let client_id = match &connect_payload.client_id {
        Some(s) => s,
        None => {
            return Err(ProcessError::MissingClientId);
        },
    };
    let clean_session = packet.variable_header.connect_flags & 0x02 != 0;
    broker.add_client(
        client_id.as_str(),
        packet.variable_header.keep_alive,
        clean_session,
        now,
    );
    Ok(ConnAck::new_success(&packet.variable_header))
}

/// Apply a Publish command: resolve the connected subscribers of the topic
/// and, by QoS, refresh their liveness (QoS 0) or queue the packet bytes
/// for acknowledgment (QoS 1/2). The caller delivers the bytes to the
/// returned recipients.
pub fn process_publish(broker: &mut Broker, packet: &Publish, now: u64) -> (r: Result<
    (PublishActions, Vec<String>),
    ProcessError,
>)
    requires
        old(broker).wf(),
        packet.payload is Publish,
        encode_utf8(packet.variable_header.topic_name@).len() <= 65535,
    ensures
        final(broker).wf(),
        spec_publish_post(
            old(broker)@,
            final(broker)@,
            packet@,
            now,
            (match r {
                Ok(p) => Ok::<(PublishActions, Seq<Seq<char>>), ProcessError>(
                    (p.0, p.1@.map_values(|s: String| s@)),
                ),
                Err(e) => Err(e),
            }),
        ),
{
    let qos = (packet.fixed_header.flags >> 1) & 0x03;
    if qos == 3 {
        return Err(ProcessError::ProtocolViolation);
    }
    let recipients = broker.collect_recipients(packet.variable_header.topic_name.as_str());
    if recipients.len() == 0 {
        proof {
            assert(recipients@.map_values(|s: String| s@).len() == 0);
        }
        return Err(ProcessError::NoSubscribers);
    }
    if qos == 0 {
        broker.touch_subscribers(packet.variable_header.topic_name.as_str(), now);
        Ok((PublishActions::NoAck, recipients))
    } else {
        let bytes = packet.to_bytes();
        broker.enqueue_pending(
            packet.variable_header.topic_name.as_str(),
            now,
            packet.variable_header.packet_id,
            &bytes,
        );
        if qos == 1 {
            Ok((PublishActions::PublishAck, recipients))
        } else {
            Ok((PublishActions::PublishRec, recipients))
        }
    }
}

/// A ConnAck is never a packet a server receives: reject it and leave the
/// registry alone.
pub fn process_connack(broker: &mut Broker) -> (r: Result<(), ProcessError>)
    requires
        old(broker).wf(),
    ensures
        final(broker).wf(),
        final(broker)@ == old(broker)@,
        r == Err::<(), ProcessError>(ProcessError::ProtocolViolation),
{
    Err(ProcessError::ProtocolViolation)
}

/// A typed command for the processor; the transport wraps each in a
/// single-use response channel of its own.
pub enum BrokerCommand {
    Connect { packet: Connect },
    ConnAck,
    Publish { packet: Publish },
}

/// The processor's answer to one command.
pub enum BrokerResponse {
    Connect(Result<ConnAck, ProcessError>),
    ConnAck(Result<(), ProcessError>),
    Publish(Result<(PublishActions, Vec<String>), ProcessError>),
}

/// The single serialized point of mutation over the registry: apply one
/// command in full and answer it. Commands handed to this function one at
/// a time, in order, give every mutation atomicity without per-entry
/// locking.
pub fn process_command(broker: &mut Broker, command: BrokerCommand, now: u64) -> (r:
    BrokerResponse)
    requires
        old(broker).wf(),
        (match command {
            BrokerCommand::Publish { packet } => packet.payload is Publish && encode_utf8(
                packet.variable_header.topic_name@,
            ).len() <= 65535,
            _ => true,
        }),
    ensures
        final(broker).wf(),
        (match command {
            BrokerCommand::Connect { packet } => r matches BrokerResponse::Connect(res)
                && spec_connect_post(
                old(broker)@,
                final(broker)@,
                packet@,
                now,
                (match res {
                    Ok(a) => Ok::<ConnAckModel, ProcessError>(a@),
                    Err(e) => Err(e),
                }),
            ),
            BrokerCommand::ConnAck => r == BrokerResponse::ConnAck(
                Err::<(), ProcessError>(ProcessError::ProtocolViolation),
            ) && final(broker)@ == old(broker)@,
            BrokerCommand::Publish { packet } => r matches BrokerResponse::Publish(res)
                && spec_publish_post(
                old(broker)@,
                final(broker)@,
                packet@,
                now,
                (match res {
                    Ok(p) => Ok::<(PublishActions, Seq<Seq<char>>), ProcessError>(
                        (p.0, p.1@.map_values(|s: String| s@)),
                    ),
                    Err(e) => Err(e),
                }),
            ),
        }),
{
    match command {
        BrokerCommand::Connect { packet } => BrokerResponse::Connect(
            process_connect(broker, &packet, now),
        ),
        BrokerCommand::ConnAck => BrokerResponse::ConnAck(process_connack(broker)),
        BrokerCommand::Publish { packet } => BrokerResponse::Publish(
            process_publish(broker, &packet, now),
        ),
    }
}

/// Everything dispatching a Connect frame promises: a frame that decodes
/// to a Connect packet with a client id installs the session and is
/// answered with the accept ConnAck's bytes; any decode or validation
/// failure changes nothing and produces no bytes.
pub open spec fn spec_handle_connect_post(
    pre: Seq<ClientStateModel>,
    post: Seq<ClientStateModel>,
    d: Seq<u8>,
    now: u64,
    r: Seq<u8>,
) -> bool {
    match spec_parse_connect_packet(d) {
        Ok(m) => match m.payload {
            PayloadModel::Connect(p) => match p.client_id {
                Some(id) => {
                    &&& post == spec_connect_result_registry(
                        pre,
                        id,
                        m.variable_header.keep_alive as u64,
                        clean_session_flag(m.variable_header.connect_flags),
                        now,
                    )
                    &&& r == crate::packets::connack::spec_connack_bytes(
                        spec_success_connack(m.variable_header.connect_flags),
                    )
                },
                None => post == pre && r == Seq::<u8>::empty(),
            },
            _ => post == pre && r == Seq::<u8>::empty(),
        },
        Err(_) => post == pre && r == Seq::<u8>::empty(),
    }
}

/// Routes each decoded frame to the handler of its packet kind. Dispatch
/// is a match over the kind: a tagged union in place of a handler table.
#[derive(Debug, Clone, Copy)]
pub struct MqttPacketDispatcher {}

impl MqttPacketDispatcher {
    /// A dispatcher; every packet kind has its route built in.
    pub fn new() -> (r: Result<Self, &'static str>)
        ensures
            r is Ok,
    {
        Ok(MqttPacketDispatcher {  })
    }

    /// Decode a Connect frame and apply it: install the session and answer
    /// with the accept ConnAck's bytes, or change nothing and answer with
    /// no bytes when the frame is rejected.
    pub fn handle_connect(data: &Vec<u8>, broker: &mut Broker, now: u64) -> (r: Vec<u8>)
        requires
            old(broker).wf(),
        ensures
            final(broker).wf(),
            spec_handle_connect_post(old(broker)@, final(broker)@, data@, now, r@),
    {
        let frame = vstd::slice::slice_to_vec(data.as_slice());
        let packet = match Connect::from_bytes(frame) {
            Ok(p) => p,
            Err(_) => {
                return Vec::new();
            },
        };
        match process_connect(broker, &packet, now) {
            Ok(connack) => connack.to_bytes(),
            Err(_) => Vec::new(),
        }
    }

    /// A ConnAck is not a packet the server answers; nothing to send.
    pub fn handle_connack(data: &Vec<u8>, broker: &mut Broker) -> (r: Vec<u8>)
        ensures
            final(broker)@ == old(broker)@,
            r@ == Seq::<u8>::empty(),
    {
        Vec::new()
    }

    /// Publish frames are answered through the command processor, not the
    /// dispatch table; nothing to send from here.
    pub fn handle_publish(data: &Vec<u8>, broker: &mut Broker) -> (r: Vec<u8>)
        ensures
            final(broker)@ == old(broker)@,
            r@ == Seq::<u8>::empty(),
    {
        Vec::new()
    }

    /// PubAck handling is part of the QoS 1 handshake the registry's
    /// acknowledge step completes; nothing to send from here.
    pub fn handle_puback(data: &Vec<u8>, broker: &mut Broker) -> (r: Vec<u8>)
        ensures
            final(broker)@ == old(broker)@,
            r@ == Seq::<u8>::empty(),
    {
        Vec::new()
    }

    /// PubRec handling is part of the QoS 2 handshake; nothing to send
    /// from here.
    pub fn handle_pubrec(data: &Vec<u8>, broker: &mut Broker) -> (r: Vec<u8>)
        ensures
            final(broker)@ == old(broker)@,
            r@ == Seq::<u8>::empty(),
    {
        Vec::new()
    }

    /// PubRel handling is part of the QoS 2 handshake; nothing to send
    /// from here.
    pub fn handle_pubrel(data: &Vec<u8>, broker: &mut Broker) -> (r: Vec<u8>)
        ensures
            final(broker)@ == old(broker)@,
            r@ == Seq::<u8>::empty(),
    {
        Vec::new()
    }

    /// PubComp handling is part of the QoS 2 handshake; nothing to send
    /// from here.
    pub fn handle_pubcomp(data: &Vec<u8>, broker: &mut Broker) -> (r: Vec<u8>)
        ensures
            final(broker)@ == old(broker)@,
            r@ == Seq::<u8>::empty(),
    {
        Vec::new()
    }

    /// Subscribe frames are applied through the registry's subscribe step;
    /// nothing to send from here.
    pub fn handle_subscribe(data: &Vec<u8>, broker: &mut Broker) -> (r: Vec<u8>)
        ensures
            final(broker)@ == old(broker)@,
            r@ == Seq::<u8>::empty(),
    {
        Vec::new()
    }

    /// A SubAck is not a packet the server answers; nothing to send.
    pub fn handle_suback(data: &Vec<u8>, broker: &mut Broker) -> (r: Vec<u8>)
        ensures
            final(broker)@ == old(broker)@,
            r@ == Seq::<u8>::empty(),
    {
        Vec::new()
    }

    /// Unsubscribe is not answered from the dispatch table; nothing to
    /// send.
    pub fn handle_unsubscribe(data: &Vec<u8>, broker: &mut Broker) -> (r: Vec<u8>)
        ensures
            final(broker)@ == old(broker)@,
            r@ == Seq::<u8>::empty(),
    {
        Vec::new()
    }

    /// An UnsubAck is not a packet the server answers; nothing to send.
    pub fn handle_unsuback(data: &Vec<u8>, broker: &mut Broker) -> (r: Vec<u8>)
        ensures
            final(broker)@ == old(broker)@,
            r@ == Seq::<u8>::empty(),
    {
        Vec::new()
    }

    /// PingReq is answered by the transport layer; nothing to send from
    /// here.
    pub fn handle_ping_req(data: &Vec<u8>, broker: &mut Broker) -> (r: Vec<u8>)
        ensures
            final(broker)@ == old(broker)@,
            r@ == Seq::<u8>::empty(),
    {
        Vec::new()
    }

    /// A PingResp is not a packet the server answers; nothing to send.
    pub fn handle_ping_resp(data: &Vec<u8>, broker: &mut Broker) -> (r: Vec<u8>)
        ensures
            final(broker)@ == old(broker)@,
            r@ == Seq::<u8>::empty(),
    {
        Vec::new()
    }

    /// A Disconnect carries no answer; nothing to send.
    pub fn handle_disconnect(data: &Vec<u8>, broker: &mut Broker) -> (r: Vec<u8>)
        ensures
            final(broker)@ == old(broker)@,
            r@ == Seq::<u8>::empty(),
    {
        Vec::new()
    }

    /// Route a frame to its packet kind's handler. Kinds the broker does
    /// not answer change nothing and produce no bytes.
    pub fn dispatch(&self, packet_type: MqttPacketType, data: &Vec<u8>, broker: &mut Broker, now:
        u64) -> (r: Vec<u8>)
        requires
            old(broker).wf(),
        ensures
            final(broker).wf(),
            packet_type == MqttPacketType::Connect ==> spec_handle_connect_post(
                old(broker)@,
                final(broker)@,
                data@,
                now,
                r@,
            ),
            packet_type != MqttPacketType::Connect ==> final(broker)@ == old(broker)@ && r@
                == Seq::<u8>::empty(),
    {
        match packet_type {
            MqttPacketType::Connect => Self::handle_connect(data, broker, now),
            MqttPacketType::ConnAck => Self::handle_connack(data, broker),
            MqttPacketType::Publish => Self::handle_publish(data, broker),
            MqttPacketType::PubAck => Self::handle_puback(data, broker),
            MqttPacketType::PubRec => Self::handle_pubrec(data, broker),
            MqttPacketType::PubRel => Self::handle_pubrel(data, broker),
            MqttPacketType::PubComp => Self::handle_pubcomp(data, broker),
            MqttPacketType::Subscribe => Self::handle_subscribe(data, broker),
            MqttPacketType::SubAck => Self::handle_suback(data, broker),
            MqttPacketType::Unsubscribe => Self::handle_unsubscribe(data, broker),
            MqttPacketType::UnsubAck => Self::handle_unsuback(data, broker),
            MqttPacketType::PingReq => Self::handle_ping_req(data, broker),
            MqttPacketType::PingResp => Self::handle_ping_resp(data, broker),
            MqttPacketType::Disconnect => Self::handle_disconnect(data, broker),
        }
    }
}

/// Repeating a publish against the registry a QoS 0 publish left behind
/// yields the same recipients: the liveness refresh changes no identity,
/// status, or subscription, so the recipient set is stable under
/// repetition.
pub proof fn lemma_publish_idempotent(reg: Seq<ClientStateModel>, topic: Seq<char>, now: u64)
    ensures
        spec_recipients(spec_touch_recipients(reg, topic, now), topic) == spec_recipients(
            reg,
            topic,
        ),
    decreases reg.len(),
{
    let touched = spec_touch_recipients(reg, topic, now);
    if reg.len() == 0 {
        assert(touched =~= Seq::<ClientStateModel>::empty());
    } else {
        lemma_publish_idempotent(reg.drop_last(), topic, now);
        assert(touched.drop_last() =~= spec_touch_recipients(reg.drop_last(), topic, now));
        assert(touched.last() == (if spec_matches(reg.last(), topic) {
            (ClientStateModel { last_seen: now, ..reg.last() })
        } else {
            reg.last()
        }));
        assert(spec_matches(touched.last(), topic) == spec_matches(reg.last(), topic));
        assert(touched.last().client_id == reg.last().client_id);
    }
}

} // verus!
