use vstd::prelude::*;

use crate::mqtt_headers::{
    spec_connect_header_bytes, spec_parse_connect_header, spec_parse_header, ConnectHeader,
    ConnectHeaderModel, MqttHeaders, VariableHeader,
};
use crate::mqtt_payloads::{
    spec_connect_payload_bytes, spec_connect_payload_encodable, spec_parse_connect_payload,
    Payload, PayloadFactory, PayloadModel,
};
use crate::mqtt_types::{PacketError, ValidationError};

verus! {

/// A complete Connect packet: fixed header, Connect variable header,
/// Connect payload.
pub struct Connect {
    pub fixed_header: MqttHeaders,
    pub variable_header: ConnectHeader,
    pub payload: Payload,
}

/// Ghost form of a Connect packet.
pub struct ConnectModel {
    pub fixed_header: MqttHeaders,
    pub variable_header: ConnectHeaderModel,
    pub payload: PayloadModel,
}

impl View for Connect {
    type V = ConnectModel;

    open spec fn view(&self) -> ConnectModel {
        ConnectModel {
            fixed_header: self.fixed_header,
            variable_header: self.variable_header@,
            payload: self.payload@,
        }
    }
}

/// Spec-level parse of a whole Connect frame: the fixed header, then the
/// eight-byte Connect variable header, then the payload.
pub open spec fn spec_parse_connect_packet(d: Seq<u8>) -> Result<ConnectModel, PacketError> {
    match spec_parse_header(d) {
        Err(e) => Err(PacketError::Framing(e)),
        Ok(fh) => {
            let off = 1 + fh.remaining_length_bytes as int;
            if d.len() < off + 8 {
                Err(PacketError::Validation(ValidationError::TruncatedField))
            } else {
                match spec_parse_connect_header(d.subrange(off, off + 8)) {
                    Err(e) => Err(PacketError::Validation(e)),
                    Ok(vh) => match spec_parse_connect_payload(vh.connect_flags, d.skip(off + 8)) {
                        Err(e) => Err(PacketError::Validation(e)),
                        Ok(pm) => Ok(
                            ConnectModel {
                                fixed_header: fh,
                                variable_header: vh,
                                payload: PayloadModel::Connect(pm),
                            },
                        ),
                    },
                }
            }
        },
    }
}

impl Connect {
    /// Bundle the three sections of a Connect packet.
    pub fn new(fixed_header: MqttHeaders, variable_header: ConnectHeader, payload: Payload) -> (r:
        Self)
        ensures
            r.fixed_header == fixed_header,
            r.variable_header@ == variable_header@,
            r.payload@ == payload@,
    {
        Connect { fixed_header, variable_header, payload }
    }

    /// Decode a whole Connect frame, using the fixed header's consumed byte
    /// count to locate the variable header and the payload.
    pub fn from_bytes(data: Vec<u8>) -> (r: Result<Self, PacketError>)
        ensures
            (match spec_parse_connect_packet(data@) {
                Ok(m) => r matches Ok(c) && c@ == m,
                Err(e) => r == Err::<Self, PacketError>(e),
            }),
    {
        let fixed_header = match MqttHeaders::parse(data.as_slice()) {
            Ok(h) => h,
            Err(e) => {
                return Err(PacketError::Framing(e));
            },
        };
        proof {
            assert(fixed_header.remaining_length_bytes <= 4);
        }
        let off = fixed_header.incomming_byte_size();
        if data.len() < off || data.len() - off < 8 {
            return Err(PacketError::Validation(ValidationError::TruncatedField));
        }
        let header_slice = vstd::slice::slice_subrange(data.as_slice(), off, off + 8);
        let variable_header = match ConnectHeader::from_bytes(header_slice) {
            Ok(h) => h,
            Err(e) => {
                return Err(PacketError::Validation(e));
            },
        };
        let payload_slice = vstd::slice::slice_subrange(data.as_slice(), off + 8, data.len());
        let payload_data = vstd::slice::slice_to_vec(payload_slice);
        proof {
            assert(payload_data@ =~= data@.skip(off + 8));
        }
        let header_tag = VariableHeader::Connect(variable_header);
        let payload = match PayloadFactory::parse_payload(&header_tag, payload_data) {
            Ok(p) => p,
            Err(e) => {
                return Err(PacketError::Validation(e));
            },
        };
        let variable_header = match header_tag {
            VariableHeader::Connect(h) => h,
            _ => vstd::pervasive::unreached(),
        };
        Ok(Connect { fixed_header, variable_header, payload })
    }

    /// Encode: the three sections' own encodings, concatenated.
    pub fn to_bytes(&self) -> (r: Vec<u8>)
        requires
            self.variable_header.protocol_name@ == "MQTT"@,
            self.payload is Connect,
            spec_connect_payload_encodable(
                self.variable_header.connect_flags,
                self.payload@->Connect_0,
            ),
        ensures
            r@ == self.fixed_header.spec_bytes() + spec_connect_header_bytes(
                self.variable_header@,
            ) + spec_connect_payload_bytes(
                self.variable_header.connect_flags,
                self.payload@->Connect_0,
            ),
    {
        let mut buffer = self.fixed_header.to_bytes();
        let mut header_bytes = self.variable_header.to_bytes();
        buffer.append(&mut header_bytes);
        let mut payload_bytes = match &self.payload {
            Payload::Connect(connect_payload) => connect_payload.to_bytes(
                self.variable_header.connect_flags,
            ),
            _ => vstd::pervasive::unreached(),
        };
        buffer.append(&mut payload_bytes);
        buffer
    }
}

} // verus!
