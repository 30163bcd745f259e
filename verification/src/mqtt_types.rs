use vstd::prelude::*;

verus! {

/// The fourteen MQTT control packet kinds. On the wire, a kind is carried in
/// the high nibble of a fixed header's first byte, CONNECT = 1 through
/// DISCONNECT = 14.
#[derive(Debug, Clone, Copy, PartialEq, Eq, Hash, Structural)]
pub enum MqttPacketType {
    Connect,
    ConnAck,
    Publish,
    PubAck,
    PubRec,
    PubRel,
    PubComp,
    Subscribe,
    SubAck,
    Unsubscribe,
    UnsubAck,
    PingReq,
    PingResp,
    Disconnect,
}

impl MqttPacketType {
    /// The wire value of this packet kind: what the high nibble of the fixed
    /// header's first byte holds.
    pub open spec fn spec_value(self) -> u8 {
        match self {
            MqttPacketType::Connect => 1,
            MqttPacketType::ConnAck => 2,
            MqttPacketType::Publish => 3,
            MqttPacketType::PubAck => 4,
            MqttPacketType::PubRec => 5,
            MqttPacketType::PubRel => 6,
            MqttPacketType::PubComp => 7,
            MqttPacketType::Subscribe => 8,
            MqttPacketType::SubAck => 9,
            MqttPacketType::Unsubscribe => 10,
            MqttPacketType::UnsubAck => 11,
            MqttPacketType::PingReq => 12,
            MqttPacketType::PingResp => 13,
            MqttPacketType::Disconnect => 14,
        }
    }

    /// The packet kind a wire value between 1 and 14 stands for.
    pub open spec fn spec_from_u8(value: u8) -> MqttPacketType
        recommends
            1 <= value <= 14,
    {
        if value == 1 {
            MqttPacketType::Connect
        } else if value == 2 {
            MqttPacketType::ConnAck
        } else if value == 3 {
            MqttPacketType::Publish
        } else if value == 4 {
            MqttPacketType::PubAck
        } else if value == 5 {
            MqttPacketType::PubRec
        } else if value == 6 {
            MqttPacketType::PubRel
        } else if value == 7 {
            MqttPacketType::PubComp
        } else if value == 8 {
            MqttPacketType::Subscribe
        } else if value == 9 {
            MqttPacketType::SubAck
        } else if value == 10 {
            MqttPacketType::Unsubscribe
        } else if value == 11 {
            MqttPacketType::UnsubAck
        } else if value == 12 {
            MqttPacketType::PingReq
        } else if value == 13 {
            MqttPacketType::PingResp
        } else {
            MqttPacketType::Disconnect
        }
    }

    /// Executable counterpart of `spec_value`.
    #[verifier::when_used_as_spec(spec_value)]
    pub fn value(self) -> (v: u8)
        ensures
            v == self.spec_value(),
    {
        match self {
            MqttPacketType::Connect => 1,
            MqttPacketType::ConnAck => 2,
            MqttPacketType::Publish => 3,
            MqttPacketType::PubAck => 4,
            MqttPacketType::PubRec => 5,
            MqttPacketType::PubRel => 6,
            MqttPacketType::PubComp => 7,
            MqttPacketType::Subscribe => 8,
            MqttPacketType::SubAck => 9,
            MqttPacketType::Unsubscribe => 10,
            MqttPacketType::UnsubAck => 11,
            MqttPacketType::PingReq => 12,
            MqttPacketType::PingResp => 13,
            MqttPacketType::Disconnect => 14,
        }
    }

    /// Decode a wire value. Values 1 through 14 give the matching kind; any
    /// other value is rejected.
    pub fn from_u8(value: u8) -> (r: Result<Self, &'static str>)
        ensures
            1 <= value <= 14 ==> r == Ok::<Self, &'static str>(Self::spec_from_u8(value)),
            !(1 <= value <= 14) ==> (r matches Err(m) && m@ == "Invalid MQTT Packet Type"@),
            r matches Ok(t) ==> t.spec_value() == value,
    {
        match value {
            1 => Ok(MqttPacketType::Connect),
            2 => Ok(MqttPacketType::ConnAck),
            3 => Ok(MqttPacketType::Publish),
            4 => Ok(MqttPacketType::PubAck),
            5 => Ok(MqttPacketType::PubRec),
            6 => Ok(MqttPacketType::PubRel),
            7 => Ok(MqttPacketType::PubComp),
            8 => Ok(MqttPacketType::Subscribe),
            9 => Ok(MqttPacketType::SubAck),
            10 => Ok(MqttPacketType::Unsubscribe),
            11 => Ok(MqttPacketType::UnsubAck),
            12 => Ok(MqttPacketType::PingReq),
            13 => Ok(MqttPacketType::PingResp),
            14 => Ok(MqttPacketType::Disconnect),
            _ => Err("Invalid MQTT Packet Type"),
        }
    }
}

/// Decoding a kind's wire value gives the kind back.
pub proof fn lemma_packet_type_value_round_trip(t: MqttPacketType)
    ensures
        MqttPacketType::spec_from_u8(t.spec_value()) == t,
{
}

/// Every kind's wire value sits in the nibble range 1..=14.
pub proof fn lemma_packet_type_value_range(t: MqttPacketType)
    ensures
        1 <= t.spec_value() <= 14,
{
}

/// The acknowledgment step a Publish command asks of the transport, keyed by
/// the packet's quality-of-service bits.
#[derive(Debug, Clone, Copy, PartialEq, Eq, Structural)]
pub enum PublishActions {
    NoAck,
    PublishAck,
    PublishRec,
}

/// Frame-level decode failures: the fixed header could not be read. Always
/// fatal to the current frame.
#[derive(Debug, Clone, Copy, PartialEq, Eq, Structural)]
pub enum FramingError {
    /// Fewer than two bytes were available.
    BufferTooShort,
    /// The high nibble of byte 0 is outside 1..=14.
    UnknownPacketKind,
    /// The Remaining Length group does not terminate within the buffer, or
    /// spans more than the four bytes the protocol allows.
    MalformedLength,
}

/// Field-level decode failures: a frame was readable but a header or payload
/// field broke a protocol constraint, so the packet is rejected.
#[derive(Debug, Clone, Copy, PartialEq, Eq, Structural)]
pub enum ValidationError {
    /// A length-prefixed field runs past the end of its buffer.
    TruncatedField,
    /// A string field holds bytes that are not UTF-8.
    InvalidUtf8,
    /// The Connect variable header does not start with the name "MQTT".
    InvalidProtocolName,
    /// A Connect payload's client id has length zero.
    EmptyClientId,
    /// A Connect payload's client id is longer than 23 bytes.
    ClientIdTooLong,
    /// A Subscribe payload's QoS byte has one of its top six bits set.
    InvalidQoS,
}

/// Any failure while decoding a whole packet: a frame-level fault or a
/// field-level one.
#[derive(Debug, Clone, Copy, PartialEq, Eq, Structural)]
pub enum PacketError {
    Framing(FramingError),
    Validation(ValidationError),
}

} // verus!
