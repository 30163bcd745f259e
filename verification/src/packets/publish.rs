use vstd::prelude::*;

use vstd::utf8::encode_utf8;

use crate::mqtt_headers::{
    spec_parse_header, spec_parse_publish_header, spec_publish_header_bytes, MqttHeaders,
    PublishHeader, PublishHeaderModel,
};
use crate::mqtt_payloads::{spec_field_len, Payload, PayloadModel, PublishPayload};
use crate::mqtt_types::{PacketError, ValidationError};

verus! {

/// A complete Publish packet: fixed header, Publish variable header, and
/// the application bytes.
pub struct Publish {
    pub fixed_header: MqttHeaders,
    pub variable_header: PublishHeader,
    pub payload: Payload,
}

/// Ghost form of a Publish packet.
pub struct PublishModel {
    pub fixed_header: MqttHeaders,
    pub variable_header: PublishHeaderModel,
    pub payload: PayloadModel,
}

impl View for Publish {
    type V = PublishModel;

    open spec fn view(&self) -> PublishModel {
        PublishModel {
            fixed_header: self.fixed_header,
            variable_header: self.variable_header@,
            payload: self.payload@,
        }
    }
}

/// Spec-level parse of a whole Publish frame: the fixed header, the topic
/// and packet id, then the rest of the frame verbatim as the payload.
pub open spec fn spec_parse_publish_packet(d: Seq<u8>) -> Result<PublishModel, PacketError> {
    match spec_parse_header(d) {
        Err(e) => Err(PacketError::Framing(e)),
        Ok(fh) => {
            let off = 1 + fh.remaining_length_bytes as int;
            let rest = d.skip(off);
            match spec_parse_publish_header(rest) {
                Err(e) => Err(PacketError::Validation(e)),
                Ok(vh) => Ok(
                    PublishModel {
                        fixed_header: fh,
                        variable_header: vh,
                        payload: PayloadModel::Publish(rest.skip(4 + spec_field_len(rest, 0))),
                    },
                ),
            }
        },
    }
}

/// The bytes a Publish packet encodes to: the three sections' encodings,
/// concatenated.
pub open spec fn spec_publish_bytes(p: PublishModel) -> Seq<u8>
    recommends
        p.payload is Publish,
{
    p.fixed_header.spec_bytes() + spec_publish_header_bytes(
        encode_utf8(p.variable_header.topic_name),
        p.variable_header.packet_id,
    ) + p.payload->Publish_0
}

impl Publish {
    /// Bundle the three sections of a Publish packet.
    pub fn new(fixed_header: MqttHeaders, variable_header: PublishHeader, payload: Payload) -> (r:
        Self)
        ensures
            r.fixed_header == fixed_header,
            r.variable_header@ == variable_header@,
            r.payload@ == payload@,
    {
        Publish { fixed_header, variable_header, payload }
    }

    /// Decode a whole Publish frame, using the fixed header's consumed byte
    /// count and the topic length to locate each section.
    pub fn from_bytes(data: Vec<u8>) -> (r: Result<Self, PacketError>)
        ensures
            (match spec_parse_publish_packet(data@) {
                Ok(m) => r matches Ok(p) && p@ == m,
                Err(e) => r == Err::<Self, PacketError>(e),
            }),
    {
        let fixed_header = match MqttHeaders::parse(data.as_slice()) {
            Ok(h) => h,
            Err(e) => {
                return Err(PacketError::Framing(e));
            },
        };
        proof {
            assert(fixed_header.remaining_length_bytes <= 4);
        }
        let off = fixed_header.incomming_byte_size();
        let rest_slice = vstd::slice::slice_subrange(data.as_slice(), off, data.len());
        let variable_header = match PublishHeader::from_bytes(rest_slice) {
            Ok(h) => h,
            Err(e) => {
                return Err(PacketError::Validation(e));
            },
        };
        let topic_len: usize = (rest_slice[0] as usize) * 256 + (rest_slice[1] as usize);
        let payload_start = off + 4 + topic_len;
        let payload_slice = vstd::slice::slice_subrange(data.as_slice(), payload_start, data.len());
        let payload_data = vstd::slice::slice_to_vec(payload_slice);
        proof {
            assert(payload_data@ =~= data@.skip(off as int).skip(
                4 + spec_field_len(data@.skip(off as int), 0),
            ));
        }
        Ok(
            Publish {
                fixed_header,
                variable_header,
                payload: Payload::Publish(PublishPayload { payload: payload_data }),
            },
        )
    }

    /// Encode: the three sections' own encodings, concatenated; the payload
    /// is the raw bytes with no extra framing.
    pub fn to_bytes(&self) -> (r: Vec<u8>)
        requires
            self.payload is Publish,
            encode_utf8(self.variable_header.topic_name@).len() <= 65535,
        ensures
            r@ == spec_publish_bytes(self@),
    {
        let mut bytes = self.fixed_header.to_bytes();
        let mut header_bytes = self.variable_header.to_bytes();
        bytes.append(&mut header_bytes);
        let mut payload_bytes = match &self.payload {
            Payload::Publish(publish_payload) => publish_payload.to_bytes(),
            _ => vstd::pervasive::unreached(),
        };
        bytes.append(&mut payload_bytes);
        bytes
    }
}

} // verus!
