use vstd::prelude::*;

use crate::mqtt_headers::{
    spec_parse_header, ConnAckHeader, ConnectHeader, MqttHeaders, VariableHeader,
};
use crate::mqtt_payloads::{clean_session_flag, EmptyPayload, Payload, PayloadFactory, PayloadModel};
use crate::mqtt_types::{MqttPacketType, PacketError, ValidationError};

verus! {

/// A complete ConnAck packet: fixed header and ConnAck variable header; the
/// packet kind carries no payload.
pub struct ConnAck {
    pub fixed_header: MqttHeaders,
    pub variable_header: ConnAckHeader,
    pub payload: Payload,
}

/// Ghost form of a ConnAck packet.
pub struct ConnAckModel {
    pub fixed_header: MqttHeaders,
    pub variable_header: ConnAckHeader,
    pub payload: PayloadModel,
}

impl View for ConnAck {
    type V = ConnAckModel;

    open spec fn view(&self) -> ConnAckModel {
        ConnAckModel {
            fixed_header: self.fixed_header,
            variable_header: self.variable_header,
            payload: self.payload@,
        }
    }
}

/// Spec-level parse of a whole ConnAck frame.
pub open spec fn spec_parse_connack_packet(d: Seq<u8>) -> Result<ConnAckModel, PacketError> {
    match spec_parse_header(d) {
        Err(e) => Err(PacketError::Framing(e)),
        Ok(fh) => {
            let off = 1 + fh.remaining_length_bytes as int;
            if d.len() < off + 2 {
                Err(PacketError::Validation(ValidationError::TruncatedField))
            } else {
                Ok(
                    ConnAckModel {
                        fixed_header: fh,
                        variable_header: ConnAckHeader {
                            session_present: d[off] == 1,
                            return_code: d[off + 1],
                        },
                        payload: PayloadModel::Empty,
                    },
                )
            }
        },
    }
}

/// The accept response to a Connect carrying these flags: remaining length
/// two, session-present mirroring the inverse of the clean-session bit,
/// return code zero.
pub open spec fn spec_success_connack(flags: u8) -> ConnAckModel {
    ConnAckModel {
        fixed_header: MqttHeaders {
            packet_type: MqttPacketType::ConnAck,
            flags: 0,
            remaining_length: 2,
            remaining_length_bytes: 1,
        },
        variable_header: ConnAckHeader {
            session_present: !clean_session_flag(flags),
            return_code: 0,
        },
        payload: PayloadModel::Empty,
    }
}

/// The bytes a ConnAck packet encodes to.
pub open spec fn spec_connack_bytes(c: ConnAckModel) -> Seq<u8> {
    c.fixed_header.spec_bytes() + seq![
        if c.variable_header.session_present { 1u8 } else { 0u8 },
        c.variable_header.return_code,
    ]
}

impl ConnAck {
    /// Bundle the sections of a ConnAck packet.
    pub fn new(fixed_header: MqttHeaders, variable_header: ConnAckHeader, payload: Payload) -> (r:
        Self)
        ensures
            r.fixed_header == fixed_header,
            r.variable_header == variable_header,
            r.payload@ == payload@,
    {
        ConnAck { fixed_header, variable_header, payload }
    }

    /// Decode a whole ConnAck frame, locating the two variable header bytes
    /// after the fixed header.
    pub fn from_bytes(data: Vec<u8>) -> (r: Result<Self, PacketError>)
        ensures
            (match spec_parse_connack_packet(data@) {
                Ok(m) => r matches Ok(c) && c@ == m,
                Err(e) => r == Err::<Self, PacketError>(e),
            }),
    {
        let fixed_header = match MqttHeaders::parse(data.as_slice()) {
            Ok(h) => h,
            Err(e) => {
                return Err(PacketError::Framing(e));
            },
        };
        proof {
            assert(fixed_header.remaining_length_bytes <= 4);
        }
        let fixed_header_size = fixed_header.incomming_byte_size();
        if data.len() < fixed_header_size || data.len() - fixed_header_size < 2 {
            return Err(PacketError::Validation(ValidationError::TruncatedField));
        }
        let header_slice = vstd::slice::slice_subrange(
            data.as_slice(),
            fixed_header_size,
            fixed_header_size + 2,
        );
        let variable_header = ConnAckHeader::from_bytes(header_slice);
        let header_tag = VariableHeader::ConnAck(variable_header);
        let payload = match PayloadFactory::parse_payload(&header_tag, Vec::new()) {
            Ok(p) => p,
            Err(_) => vstd::pervasive::unreached(),
        };
        Ok(ConnAck { fixed_header, variable_header, payload })
    }

    /// Encode: the fixed header's bytes, then the two variable header
    /// bytes.
    pub fn to_bytes(&self) -> (r: Vec<u8>)
        ensures
            r@ == spec_connack_bytes(self@),
    {
        let mut buffer = self.fixed_header.to_bytes();
        let mut variable_header_buffer = self.variable_header.to_bytes();
        buffer.append(&mut variable_header_buffer);
        proof {
            assert(buffer@ =~= spec_connack_bytes(self@));
        }
        buffer
    }

    /// Build the accept response to a Connect: remaining length two,
    /// session-present from the peer's clean-session flag (a clean session
    /// starts with no prior state), return code zero.
    pub fn new_success(connect_header: &ConnectHeader) -> (r: Self)
        ensures
            r@ == spec_success_connack(connect_header.connect_flags),
    {
        let session_present = connect_header.connect_flags & 0x02 == 0;
        let return_code: u8 = 0;
        let fixed_header = MqttHeaders::new(MqttPacketType::ConnAck, 0, 2);
        let variable_header = ConnAckHeader::new(session_present, return_code);
        ConnAck::new(fixed_header, variable_header, Payload::Empty(EmptyPayload))
    }
}

} // verus!
