use vstd::prelude::*;

use vstd::utf8::encode_utf8;

use crate::mqtt_types::{FramingError, MqttPacketType, ValidationError};

verus! {

use vstd::string::StrSliceExecFns;

// ---------------------------------------------------------------------------
// Remaining Length: base-128 variable-length integer codec.
// ---------------------------------------------------------------------------

/// 128^i, the weight of the i-th Remaining Length digit.
pub open spec fn pow128(i: nat) -> nat
    decreases i,
{
    if i == 0 {
        1
    } else {
        128 * pow128((i - 1) as nat)
    }
}

/// The values of `pow128` the codec needs, spelled out.
pub proof fn lemma_pow128_values()
    ensures
        pow128(0) == 1,
        pow128(1) == 128,
        pow128(2) == 16384,
        pow128(3) == 2097152,
        pow128(4) == 268435456,
{
    assert(pow128(0) == 1);
    assert(pow128(1) == 128);
    assert(pow128(2) == 16384);
    assert(pow128(3) == 2097152);
    assert(pow128(4) == 268435456);
}

/// Canonical base-128 encoding of a Remaining Length value: seven value bits
/// per byte, least significant group first, continuation bit 0x80 on every
/// byte but the last.
pub open spec fn spec_encode_remaining_length(n: nat) -> Seq<u8>
    decreases n,
{
    if n < 128 {
        seq![n as u8]
    } else {
        seq![(n % 128 + 128) as u8] + spec_encode_remaining_length(n / 128)
    }
}

/// The value a group of length bytes stands for: each byte contributes its
/// low seven bits, least significant group first.
pub open spec fn spec_group_value(s: Seq<u8>) -> nat
    decreases s.len(),
{
    if s.len() == 0 {
        0
    } else {
        (s[0] & 0x7f) as nat + 128 * spec_group_value(s.drop_first())
    }
}

/// How many bytes the length group at the start of `t` spans: the position
/// of the first byte without the continuation bit, plus one. `None` when no
/// group ends within the four bytes the protocol allows, or within `t`.
pub open spec fn spec_group_len(t: Seq<u8>) -> Option<int> {
    if t.len() >= 1 && t[0] & 0x80 == 0 {
        Some(1int)
    } else if t.len() >= 2 && t[0] & 0x80 != 0 && t[1] & 0x80 == 0 {
        Some(2int)
    } else if t.len() >= 3 && t[0] & 0x80 != 0 && t[1] & 0x80 != 0 && t[2] & 0x80 == 0 {
        Some(3int)
    } else if t.len() >= 4 && t[0] & 0x80 != 0 && t[1] & 0x80 != 0 && t[2] & 0x80 != 0 && t[3]
        & 0x80 == 0 {
        Some(4int)
    } else {
        None
    }
}

/// A group's value is below 128^len.
pub proof fn lemma_group_value_bound(s: Seq<u8>)
    ensures
        spec_group_value(s) < pow128(s.len()),
    decreases s.len(),
{
    if s.len() == 0 {
    } else {
        lemma_group_value_bound(s.drop_first());
        let b = s[0];
        assert(b & 0x7f < 128) by (bit_vector);
        let d = (b & 0x7f) as nat;
        let v = spec_group_value(s.drop_first());
        let p = pow128((s.len() - 1) as nat);
        assert(v < p);
        assert(d + 128 * v < 128 * p) by (nonlinear_arith)
            requires
                d < 128,
                v < p,
        ;
    }
}

/// Appending a byte to a group adds its digit at weight 128^len.
pub proof fn lemma_group_value_push(s: Seq<u8>, b: u8)
    ensures
        spec_group_value(s.push(b)) == spec_group_value(s) + ((b & 0x7f) as nat) * pow128(
            s.len(),
        ),
    decreases s.len(),
{
    let d = (b & 0x7f) as nat;
    if s.len() == 0 {
        assert(s.push(b).drop_first() =~= Seq::<u8>::empty());
        assert(s.push(b)[0] == b);
        assert(s.push(b).len() == 1);
        assert(spec_group_value(s.push(b).drop_first()) == 0);
        assert(spec_group_value(s.push(b)) == d);
        assert(spec_group_value(s) == 0);
        assert(pow128(s.len()) == 1);
        assert(d * 1 == d) by (nonlinear_arith);
    } else {
        assert(s.push(b).drop_first() =~= s.drop_first().push(b));
        assert(s.push(b)[0] == s[0]);
        lemma_group_value_push(s.drop_first(), b);
        let s0 = (s[0] & 0x7f) as nat;
        let v = spec_group_value(s.drop_first());
        let p = pow128((s.len() - 1) as nat);
        assert(spec_group_value(s.drop_first().push(b)) == v + d * p);
        assert(spec_group_value(s.push(b)) == s0 + 128 * (v + d * p));
        assert(pow128(s.len()) == 128 * p);
        assert(s0 + 128 * (v + d * p) == (s0 + 128 * v) + d * (128 * p)) by (nonlinear_arith);
        assert(spec_group_value(s) == s0 + 128 * v);
        assert(d * pow128(s.len()) == d * (128 * p));
    }
}

/// Decoding the canonical encoding gives the value back.
pub proof fn lemma_encode_decode(n: nat)
    ensures
        spec_group_value(spec_encode_remaining_length(n)) == n,
    decreases n,
{
    if n < 128 {
        let b = n as u8;
        assert(b & 0x7f == b) by (bit_vector)
            requires
                b < 128,
        ;
        assert(seq![b].drop_first() =~= Seq::<u8>::empty());
        assert(seq![b][0] == b);
        assert(spec_group_value(seq![b].drop_first()) == 0);
        assert(spec_encode_remaining_length(n) == seq![b]);
        assert(spec_group_value(seq![b]) == (b & 0x7f) as nat + 128 * 0);
    } else {
        lemma_encode_decode(n / 128);
        let m = (n % 128) as u8;
        let b = (n % 128 + 128) as u8;
        assert(((m + 128) as u8) & 0x7f == m) by (bit_vector)
            requires
                m < 128,
        ;
        assert(b == (m + 128) as u8);
        assert((b & 0x7f) as nat == n % 128);
        let e = spec_encode_remaining_length(n / 128);
        assert((seq![b] + e).drop_first() =~= e);
        assert((seq![b] + e)[0] == b);
        assert(spec_group_value(seq![b] + e) == (b & 0x7f) as nat + 128 * spec_group_value(e));
        assert(spec_encode_remaining_length(n) == seq![b] + e);
        assert(spec_group_value(e) == n / 128);
        assert(n % 128 + 128 * (n / 128) == n) by (nonlinear_arith);
        assert(spec_group_value(seq![b] + e) == n);
    }
}

/// Structure of the canonical encoding: the continuation bit is set on every
/// byte but the last, and clear on the last.
pub proof fn lemma_encode_structure(n: nat)
    ensures
        1 <= spec_encode_remaining_length(n).len(),
        forall|i: int|
            0 <= i < spec_encode_remaining_length(n).len() - 1 ==> (
            spec_encode_remaining_length(n)[i] & 0x80) != 0,
        spec_encode_remaining_length(n)[spec_encode_remaining_length(n).len() - 1] & 0x80 == 0,
    decreases n,
{
    let e = spec_encode_remaining_length(n);
    if n < 128 {
        let b = n as u8;
        assert(b & 0x80 == 0) by (bit_vector)
            requires
                b < 128,
        ;
    } else {
        lemma_encode_structure(n / 128);
        let m = (n % 128) as u8;
        assert(((m + 128) as u8) & 0x80 != 0) by (bit_vector)
            requires
                m < 128,
        ;
        let rest = spec_encode_remaining_length(n / 128);
        assert(e[0] == (n % 128 + 128) as u8);
        assert(forall|i: int| 1 <= i < e.len() ==> e[i] == rest[i - 1]);
    }
}

/// Length of the canonical encoding, by value range.
pub proof fn lemma_encode_len(n: nat)
    requires
        n < 268435456,
    ensures
        spec_encode_remaining_length(n).len() == if n < 128 {
            1int
        } else if n < 16384 {
            2int
        } else if n < 2097152 {
            3int
        } else {
            4int
        },
    decreases n,
{
    if n >= 128 {
        lemma_encode_len(n / 128);
        assert(n / 128 < 128 <==> n < 16384) by (nonlinear_arith);
        assert(n / 128 < 16384 <==> n < 2097152) by (nonlinear_arith);
        assert(n / 128 < 2097152 <==> n < 268435456) by (nonlinear_arith);
        assert(n / 128 >= 1) by (nonlinear_arith)
            requires
                n >= 128,
        ;
    }
}

/// A complete group of one to four bytes is exactly what `spec_group_len`
/// finds.
pub proof fn lemma_group_len_of_complete(t: Seq<u8>)
    requires
        1 <= t.len() <= 4,
        forall|i: int| 0 <= i < t.len() - 1 ==> (t[i] & 0x80) != 0,
        t[t.len() - 1] & 0x80 == 0,
    ensures
        spec_group_len(t) == Some(t.len() as int),
{
    if t.len() == 1 {
    } else if t.len() == 2 {
        assert(t[0] & 0x80 != 0);
    } else if t.len() == 3 {
        assert(t[0] & 0x80 != 0 && t[1] & 0x80 != 0);
    } else {
        assert(t[0] & 0x80 != 0 && t[1] & 0x80 != 0 && t[2] & 0x80 != 0);
    }
}

// ---------------------------------------------------------------------------
// Fixed header.
// ---------------------------------------------------------------------------

/// The MQTT fixed header: packet kind and flags from byte 0, then the
/// Remaining Length group. `remaining_length_bytes` records how many bytes
/// that group took, so a caller can locate the variable header.
#[derive(Debug, Clone, Copy, PartialEq, Eq, Structural)]
pub struct MqttHeaders {
    pub packet_type: MqttPacketType,
    pub flags: u8,
    pub remaining_length: u32,
    pub remaining_length_bytes: usize,
}

/// Spec-level fixed header parse; `parse` is proved to return exactly this.
pub open spec fn spec_parse_header(s: Seq<u8>) -> Result<MqttHeaders, FramingError> {
    if s.len() < 2 {
        Err(FramingError::BufferTooShort)
    } else {
        let nibble = s[0] >> 4;
        if nibble < 1 || nibble > 14 {
            Err(FramingError::UnknownPacketKind)
        } else {
            match spec_group_len(s.skip(1)) {
                Some(k) => Ok(
                    MqttHeaders {
                        packet_type: MqttPacketType::spec_from_u8(nibble),
                        flags: s[0] & 0x0f,
                        remaining_length: spec_group_value(s.skip(1).take(k)) as u32,
                        remaining_length_bytes: k as usize,
                    },
                ),
                None => Err(FramingError::MalformedLength),
            }
        }
    }
}

impl MqttHeaders {
    /// First byte of the encoded header: kind in the high nibble, flags in
    /// the low nibble.
    pub open spec fn spec_first_byte(self) -> u8 {
        (self.packet_type.spec_value() << 4) | (self.flags & 0x0f)
    }

    /// The exact bytes `to_bytes` emits.
    pub open spec fn spec_bytes(self) -> Seq<u8> {
        seq![self.spec_first_byte()] + spec_encode_remaining_length(self.remaining_length as nat)
    }

    /// Well-formed: the flags fit the low nibble, the remaining length is
    /// encodable in at most four bytes, and the recorded byte count is the
    /// count the canonical encoding takes.
    pub open spec fn wf(self) -> bool {
        &&& self.flags < 16
        &&& self.remaining_length < 268435456
        &&& self.remaining_length_bytes == spec_encode_remaining_length(
            self.remaining_length as nat,
        ).len()
    }

    /// Build a header, recording how many bytes the Remaining Length group
    /// will take on the wire.
    pub fn new(packet_type: MqttPacketType, flags: u8, remaining_length: u32) -> (r: Self)
        requires
            remaining_length < 268435456,
        ensures
            r.packet_type == packet_type,
            r.flags == flags,
            r.remaining_length == remaining_length,
            r.remaining_length_bytes == spec_encode_remaining_length(
                remaining_length as nat,
            ).len(),
            flags < 16 ==> r.wf(),
    {
        proof {
            lemma_encode_len(remaining_length as nat);
        }
        let remaining_length_bytes: usize = if remaining_length < 128 {
            1
        } else if remaining_length < 16384 {
            2
        } else if remaining_length < 2097152 {
            3
        } else {
            4
        };
        MqttHeaders { packet_type, flags, remaining_length, remaining_length_bytes }
    }

    /// Decode a fixed header from the front of `buffer`.
    pub fn parse(buffer: &[u8]) -> (r: Result<Self, FramingError>)
        ensures
            r == spec_parse_header(buffer@),
    {
        if buffer.len() < 2 {
            return Err(FramingError::BufferTooShort);
        }
        let byte1 = buffer[0];
        let nibble = byte1 >> 4;
        let packet_type = match MqttPacketType::from_u8(nibble) {
            Ok(t) => t,
            Err(_) => {
                proof {
                    assert(byte1 >> 4 <= 15) by (bit_vector);
                }
                return Err(FramingError::UnknownPacketKind);
            },
        };
        let flags = byte1 & 0x0f;
        let ghost t = buffer@.skip(1);
        proof {
            lemma_pow128_values();
        }
        let mut value: u32 = 0;
        let mut multiplier: u32 = 1;
        let mut count: usize = 0;
        while count < 4
            invariant
                buffer@.len() >= 2,
                t == buffer@.skip(1),
                1 <= nibble <= 14,
                nibble == buffer@[0] >> 4,
                flags == buffer@[0] & 0x0f,
                packet_type == MqttPacketType::spec_from_u8(nibble),
                0 <= count <= 4,
                multiplier == pow128(count as nat),
                value == spec_group_value(t.take(count as int)),
                count < buffer@.len(),
                forall|j: int| 0 <= j < count ==> (t[j] & 0x80) != 0,
            decreases 4 - count,
        {
            if 1 + count >= buffer.len() {
                proof {
                    assert(t.len() == count);
                    assert(spec_group_len(t) is None);
                }
                return Err(FramingError::MalformedLength);
            }
            let b = buffer[1 + count];
            proof {
                lemma_pow128_values();
                assert(t[count as int] == buffer@[1 + count as int]);
                lemma_group_value_push(t.take(count as int), b);
                assert(t.take(count as int).push(b) =~= t.take(count as int + 1));
                lemma_group_value_bound(t.take(count as int));
                assert(t.take(count as int).len() == count);
                let d = (b & 0x7f) as nat;
                assert(b & 0x7f < 128) by (bit_vector);
                let p = pow128(count as nat);
                assert(value + d * p < 128 * p) by (nonlinear_arith)
                    requires
                        value < p,
                        d < 128,
                ;
                assert(128 * p == pow128((count + 1) as nat));
                if count == 0 {
                    assert(pow128(1) <= 268435456);
                } else if count == 1 {
                    assert(pow128(2) <= 268435456);
                } else if count == 2 {
                    assert(pow128(3) <= 268435456);
                } else {
                    assert(pow128(4) <= 268435456);
                }
            }
            let digit = (b & 0x7f) as u32;
            value = value + digit * multiplier;
            count = count + 1;
            if b & 0x80 == 0 {
                proof {
                    lemma_group_len_of_complete(t.take(count as int));
                    assert(forall|j: int|
                        0 <= j < count ==> t.take(count as int)[j] == t[j]);
                    assert(spec_group_len(t) == spec_group_len(t.take(count as int))) by {
                        assert(t.len() >= count);
                        assert(t[count - 1] & 0x80 == 0);
                    }
                    lemma_group_value_bound(t.take(count as int));
                }
                return Ok(
                    MqttHeaders {
                        packet_type,
                        flags,
                        remaining_length: value,
                        remaining_length_bytes: count,
                    },
                );
            }
            proof {
                if count == 1 {
                    assert(multiplier == pow128(0));
                } else if count == 2 {
                    assert(multiplier == pow128(1));
                } else if count == 3 {
                    assert(multiplier == pow128(2));
                } else {
                    assert(multiplier == pow128(3));
                }
                assert(pow128(count as nat) == 128 * pow128((count - 1) as nat));
            }
            multiplier = multiplier * 128;
        }
        Err(FramingError::MalformedLength)
    }

    /// Encode: one type/flags byte, then the Remaining Length group.
    pub fn to_bytes(&self) -> (r: Vec<u8>)
        ensures
            r@ == self.spec_bytes(),
    {
        let mut buffer: Vec<u8> = Vec::new();
        let byte1 = (self.packet_type.value() << 4) | (self.flags & 0x0f);
        buffer.push(byte1);
        let mut remaining_length = self.remaining_length;
        proof {
            assert(self.spec_bytes() =~= buffer@ + spec_encode_remaining_length(
                remaining_length as nat,
            ));
        }
        while remaining_length >= 128
            invariant
                self.spec_bytes() == buffer@ + spec_encode_remaining_length(
                    remaining_length as nat,
                ),
            decreases remaining_length,
        {
            let encoded_byte = (remaining_length % 128 + 128) as u8;
            let ghost before = buffer@;
            let ghost n = remaining_length as nat;
            buffer.push(encoded_byte);
            remaining_length = remaining_length / 128;
            proof {
                assert(spec_encode_remaining_length(n) == seq![(n % 128 + 128) as u8]
                    + spec_encode_remaining_length(n / 128));
                assert(before + spec_encode_remaining_length(n) =~= buffer@
                    + spec_encode_remaining_length(remaining_length as nat));
            }
        }
        let ghost before = buffer@;
        buffer.push(remaining_length as u8);
        proof {
            assert(spec_encode_remaining_length(remaining_length as nat) == seq![
                remaining_length as u8,
            ]);
            assert(before + spec_encode_remaining_length(remaining_length as nat) =~= buffer@);
        }
        buffer
    }

    /// In-memory size of the fields a fixed header always carries: the one
    /// type/flags byte plus the four-byte remaining length.
    pub fn size(&self) -> (r: usize)
        ensures
            r == 5,
    {
        1 + 4
    }

    /// How many bytes of the frame the fixed header occupied: the length
    /// group plus the type/flags byte.
    pub fn incomming_byte_size(&self) -> (r: usize)
        requires
            self.remaining_length_bytes <= 4,
        ensures
            r == self.remaining_length_bytes + 1,
    {
        self.remaining_length_bytes + 1
    }
}

/// Round trip: parsing an encoded well-formed fixed header gives the header
/// back. `parse` and `to_bytes` are pinned to `spec_parse_header` and
/// `spec_bytes` by their contracts, so the law carries over to the
/// executable pair.
pub proof fn lemma_header_round_trip(h: MqttHeaders)
    requires
        h.wf(),
    ensures
        spec_parse_header(h.spec_bytes()) == Ok::<MqttHeaders, FramingError>(h),
{
    let s = h.spec_bytes();
    let e = spec_encode_remaining_length(h.remaining_length as nat);
    lemma_encode_structure(h.remaining_length as nat);
    lemma_encode_len(h.remaining_length as nat);
    lemma_encode_decode(h.remaining_length as nat);
    crate::mqtt_types::lemma_packet_type_value_range(h.packet_type);
    crate::mqtt_types::lemma_packet_type_value_round_trip(h.packet_type);
    let v = h.packet_type.spec_value();
    let f = h.flags;
    assert(s[0] == h.spec_first_byte());
    assert(((v << 4) | (f & 0x0f)) >> 4 == v) by (bit_vector)
        requires
            1 <= v <= 14,
    ;
    assert(((v << 4) | (f & 0x0f)) & 0x0f == f) by (bit_vector)
        requires
            f < 16,
    ;
    assert(s.skip(1) =~= e);
    lemma_group_len_of_complete(e);
    assert(e.take(e.len() as int) =~= e);
    assert(spec_parse_header(s) is Ok);
}

// ---------------------------------------------------------------------------
// Variable headers, tagged by packet kind.
// ---------------------------------------------------------------------------

/// Big-endian 16-bit read: high byte then low byte.
pub fn be16(hi: u8, lo: u8) -> (r: u16)
    ensures
        r == hi * 256 + lo,
{
    (hi as u16) * 256 + (lo as u16)
}

/// The Connect variable header: protocol name, protocol level, connect
/// flags, keep-alive in seconds.
#[derive(Debug, Clone, PartialEq)]
pub struct ConnectHeader {
    pub protocol_name: String,
    pub protocol_level: u8,
    pub connect_flags: u8,
    pub keep_alive: u16,
}

/// The Publish variable header: topic name and packet id.
#[derive(Debug, Clone, PartialEq)]
pub struct PublishHeader {
    pub topic_name: String,
    pub packet_id: u16,
}

/// The Subscribe variable header: packet id only.
#[derive(Debug, Clone, Copy, PartialEq, Eq, Structural)]
pub struct SubscribeHeader {
    pub packet_id: u16,
}

/// The ConnAck variable header: session-present flag and return code.
#[derive(Debug, Clone, Copy, PartialEq, Eq, Structural)]
pub struct ConnAckHeader {
    pub session_present: bool,
    pub return_code: u8,
}

/// A parsed variable header, tagged by the packet kind that produced it.
/// Dispatching on the variant replaces run-time type identity.
#[derive(Debug, Clone, PartialEq)]
pub enum VariableHeader {
    Connect(ConnectHeader),
    Publish(PublishHeader),
    Subscribe(SubscribeHeader),
    ConnAck(ConnAckHeader),
}

impl VariableHeader {
    /// The packet kind this variable header belongs to.
    pub open spec fn spec_header_type(self) -> MqttPacketType {
        match self {
            VariableHeader::Connect(_) => MqttPacketType::Connect,
            VariableHeader::Publish(_) => MqttPacketType::Publish,
            VariableHeader::Subscribe(_) => MqttPacketType::Subscribe,
            VariableHeader::ConnAck(_) => MqttPacketType::ConnAck,
        }
    }

    /// Executable counterpart of `spec_header_type`.
    pub fn header_type(&self) -> (t: MqttPacketType)
        ensures
            t == self.spec_header_type(),
    {
        match self {
            VariableHeader::Connect(_) => MqttPacketType::Connect,
            VariableHeader::Publish(_) => MqttPacketType::Publish,
            VariableHeader::Subscribe(_) => MqttPacketType::Subscribe,
            VariableHeader::ConnAck(_) => MqttPacketType::ConnAck,
        }
    }
}

/// Whether `d` starts with the four ASCII bytes of "MQTT".
pub open spec fn spec_is_mqtt_name(d: Seq<u8>) -> bool {
    d.len() >= 4 && d[0] == 0x4d && d[1] == 0x51 && d[2] == 0x54 && d[3] == 0x54
}

/// Ghost form of a Connect variable header.
pub struct ConnectHeaderModel {
    pub protocol_name: Seq<char>,
    pub protocol_level: u8,
    pub connect_flags: u8,
    pub keep_alive: u16,
}

impl View for ConnectHeader {
    type V = ConnectHeaderModel;

    open spec fn view(&self) -> ConnectHeaderModel {
        ConnectHeaderModel {
            protocol_name: self.protocol_name@,
            protocol_level: self.protocol_level,
            connect_flags: self.connect_flags,
            keep_alive: self.keep_alive,
        }
    }
}

/// Ghost form of a Publish variable header.
pub struct PublishHeaderModel {
    pub topic_name: Seq<char>,
    pub packet_id: u16,
}

impl View for PublishHeader {
    type V = PublishHeaderModel;

    open spec fn view(&self) -> PublishHeaderModel {
        PublishHeaderModel { topic_name: self.topic_name@, packet_id: self.packet_id }
    }
}

/// The exact bytes a Connect variable header encodes to; the protocol name
/// is always the four ASCII bytes of "MQTT".
pub open spec fn spec_connect_header_bytes(h: ConnectHeaderModel) -> Seq<u8> {
    seq![
        0x4du8,
        0x51,
        0x54,
        0x54,
        h.protocol_level,
        h.connect_flags,
        (h.keep_alive / 256) as u8,
        (h.keep_alive % 256) as u8,
    ]
}

/// Spec-level Connect variable header parse: four protocol name bytes that
/// must read "MQTT", the level, the connect flags, and the big-endian
/// keep-alive.
pub open spec fn spec_parse_connect_header(d: Seq<u8>) -> Result<
    ConnectHeaderModel,
    ValidationError,
> {
    if d.len() < 8 {
        Err(ValidationError::TruncatedField)
    } else if !spec_is_mqtt_name(d) {
        Err(ValidationError::InvalidProtocolName)
    } else {
        Ok(
            ConnectHeaderModel {
                protocol_name: "MQTT"@,
                protocol_level: d[4],
                connect_flags: d[5],
                keep_alive: (d[6] * 256 + d[7]) as u16,
            },
        )
    }
}

impl ConnectHeader {
    /// Build a Connect header; any protocol name other than "MQTT" is
    /// rejected.
    pub fn new(protocol_name: String, protocol_level: u8, connect_flags: u8, keep_alive: u16) -> (r:
        Result<Self, String>)
        ensures
            protocol_name@ == "MQTT"@ ==> (r matches Ok(h) && h.protocol_name@ == "MQTT"@
                && h.protocol_level == protocol_level && h.connect_flags == connect_flags
                && h.keep_alive == keep_alive),
            protocol_name@ != "MQTT"@ ==> (r matches Err(m) && m@ == "Invalid Protocol Name"@),
    {
        let expected: String = "MQTT".to_owned();
        if !(protocol_name == expected) {
            return Err("Invalid Protocol Name".to_owned());
        }
        Ok(ConnectHeader { protocol_name, protocol_level, connect_flags, keep_alive })
    }

    /// Parse the eight-byte Connect variable header: four protocol name
    /// bytes that must read "MQTT", the protocol level, the connect flags,
    /// and the big-endian keep-alive.
    pub fn from_bytes(data: &[u8]) -> (r: Result<Self, ValidationError>)
        ensures
            (match spec_parse_connect_header(data@) {
                Ok(m) => r matches Ok(h) && h@ == m,
                Err(e) => r == Err::<Self, ValidationError>(e),
            }),
    {
        if data.len() < 8 {
            return Err(ValidationError::TruncatedField);
        }
        if !(data[0] == 0x4d && data[1] == 0x51 && data[2] == 0x54 && data[3] == 0x54) {
            return Err(ValidationError::InvalidProtocolName);
        }
        let protocol_name: String = "MQTT".to_owned();
        Ok(
            ConnectHeader {
                protocol_name,
                protocol_level: data[4],
                connect_flags: data[5],
                keep_alive: be16(data[6], data[7]),
            },
        )
    }

    /// Wire size of the Connect variable header.
    pub fn size() -> (r: usize)
        ensures
            r == 8,
    {
        4 + 1 + 1 + 2
    }

    /// Encode: the four "MQTT" name bytes, the level, the flags, and the
    /// big-endian keep-alive.
    pub fn to_bytes(&self) -> (r: Vec<u8>)
        requires
            self.protocol_name@ == "MQTT"@,
        ensures
            r@ == spec_connect_header_bytes(self@),
    {
        let mut buffer: Vec<u8> = Vec::new();
        buffer.push(0x4d);
        buffer.push(0x51);
        buffer.push(0x54);
        buffer.push(0x54);
        buffer.push(self.protocol_level);
        buffer.push(self.connect_flags);
        buffer.push((self.keep_alive / 256) as u8);
        buffer.push((self.keep_alive % 256) as u8);
        proof {
            assert(buffer@ =~= spec_connect_header_bytes(self@));
        }
        buffer
    }
}

impl ConnAckHeader {
    pub fn new(session_present: bool, return_code: u8) -> (r: Self)
        ensures
            r.session_present == session_present,
            r.return_code == return_code,
    {
        ConnAckHeader { session_present, return_code }
    }

    /// Parse the two ConnAck variable header bytes. Session-present occupies
    /// bit 0 of byte 0; if any reserved bit 1..=7 is set, session-present is
    /// read as false rather than failing.
    pub fn from_bytes(data: &[u8]) -> (r: Self)
        requires
            data@.len() >= 2,
        ensures
            r.session_present == (data@[0] == 1),
            r.return_code == data@[1],
    {
        let b = data[0];
        let session_present = b & 0xfe == 0 && b & 0x01 == 1;
        proof {
            assert((b & 0xfe == 0 && b & 0x01 == 1) <==> b == 1) by (bit_vector);
        }
        ConnAckHeader::new(session_present, data[1])
    }

    /// Encode: session-present byte then return code.
    pub fn to_bytes(&self) -> (r: Vec<u8>)
        ensures
            r@ == seq![if self.session_present { 1u8 } else { 0u8 }, self.return_code],
    {
        let mut buffer: Vec<u8> = Vec::new();
        let session_present_as_byte: u8 = if self.session_present {
            1
        } else {
            0
        };
        buffer.push(session_present_as_byte);
        buffer.push(self.return_code);
        proof {
            assert(buffer@ =~= seq![
                if self.session_present { 1u8 } else { 0u8 },
                self.return_code,
            ]);
        }
        buffer
    }

    /// Wire size of the ConnAck variable header.
    pub fn incomming_byte_size() -> (r: usize)
        ensures
            r == 2,
    {
        1 + 1
    }
}

/// Spec-level Publish variable header parse: a length-prefixed topic name,
/// then a big-endian packet id.
pub open spec fn spec_parse_publish_header(d: Seq<u8>) -> Result<
    PublishHeaderModel,
    ValidationError,
> {
    match crate::mqtt_payloads::spec_field_result(d, 0) {
        Ok(topic) => {
            let pi = 2 + crate::mqtt_payloads::spec_field_len(d, 0);
            if pi + 2 > d.len() {
                Err(ValidationError::TruncatedField)
            } else {
                Ok(
                    PublishHeaderModel {
                        topic_name: topic,
                        packet_id: (d[pi] * 256 + d[pi + 1]) as u16,
                    },
                )
            }
        },
        Err(e) => Err(e),
    }
}

/// The exact bytes a Publish variable header encodes to: a two-byte
/// big-endian length, the topic's UTF-8 bytes, then the packet id.
pub open spec fn spec_publish_header_bytes(topic_bytes: Seq<u8>, packet_id: u16) -> Seq<u8> {
    seq![(topic_bytes.len() / 256) as u8, (topic_bytes.len() % 256) as u8] + topic_bytes + seq![
        (packet_id / 256) as u8,
        (packet_id % 256) as u8,
    ]
}

impl PublishHeader {
    /// Parse the Publish variable header: the length-prefixed UTF-8 topic
    /// name, then the two-byte big-endian packet id.
    pub fn from_bytes(data: &[u8]) -> (r: Result<Self, ValidationError>)
        ensures
            (match spec_parse_publish_header(data@) {
                Ok(m) => r matches Ok(h) && h@ == m,
                Err(e) => r == Err::<Self, ValidationError>(e),
            }),
    {
        let mut idx: usize = 0;
        let topic_name = match crate::mqtt_payloads::PayloadFactory::extract_utf8_string(
            data,
            &mut idx,
        ) {
            Ok(p) => p.1,
            Err(e) => {
                return Err(e);
            },
        };
        if data.len() - idx < 2 {
            return Err(ValidationError::TruncatedField);
        }
        let packet_id = be16(data[idx], data[idx + 1]);
        Ok(PublishHeader { topic_name, packet_id })
    }

    /// Encode: a two-byte big-endian topic length, the topic bytes, then
    /// the big-endian packet id.
    pub fn to_bytes(&self) -> (r: Vec<u8>)
        requires
            encode_utf8(self.topic_name@).len() <= 65535,
        ensures
            r@ == spec_publish_header_bytes(encode_utf8(self.topic_name@), self.packet_id),
    {
        let mut buffer: Vec<u8> = Vec::new();
        let mut topic_bytes = self.topic_name.as_str().as_bytes_vec();
        let topic_len = topic_bytes.len();
        buffer.push((topic_len / 256) as u8);
        buffer.push((topic_len % 256) as u8);
        buffer.append(&mut topic_bytes);
        buffer.push((self.packet_id / 256) as u8);
        buffer.push((self.packet_id % 256) as u8);
        proof {
            assert(buffer@ =~= spec_publish_header_bytes(
                encode_utf8(self.topic_name@),
                self.packet_id,
            ));
        }
        buffer
    }
}

} // verus!
