use vstd::prelude::*;

use vstd::utf8::{decode_utf8, encode_utf8, valid_utf8};

use crate::mqtt_headers::VariableHeader;
use crate::mqtt_types::ValidationError;

verus! {

use vstd::string::StrSliceExecFns;

// ---------------------------------------------------------------------------
// Length-prefixed UTF-8 string fields.
// ---------------------------------------------------------------------------

/// Big-endian length prefix of the string field at offset `i`.
pub open spec fn spec_field_len(d: Seq<u8>, i: int) -> int
    recommends
        0 <= i,
        i + 2 <= d.len(),
{
    d[i] * 256 + d[i + 1]
}

/// Whether the length-prefixed field at `i` lies fully inside the buffer.
pub open spec fn spec_field_fits(d: Seq<u8>, i: int) -> bool {
    0 <= i && i + 2 <= d.len() && i + 2 + spec_field_len(d, i) <= d.len()
}

/// The bytes of the field at `i`, without the length prefix.
pub open spec fn spec_field_bytes(d: Seq<u8>, i: int) -> Seq<u8>
    recommends
        spec_field_fits(d, i),
{
    d.subrange(i + 2, i + 2 + spec_field_len(d, i))
}

/// Spec-level extraction of one length-prefixed UTF-8 string field.
pub open spec fn spec_field_result(d: Seq<u8>, i: int) -> Result<Seq<char>, ValidationError> {
    if !spec_field_fits(d, i) {
        Err(ValidationError::TruncatedField)
    } else if !valid_utf8(spec_field_bytes(d, i)) {
        Err(ValidationError::InvalidUtf8)
    } else {
        Ok(decode_utf8(spec_field_bytes(d, i)))
    }
}

/// The bytes a string field encodes to: two big-endian length bytes, then
/// the string's UTF-8 bytes, with no terminator.
pub open spec fn spec_field_encode(s: Seq<char>) -> Seq<u8>
    recommends
        encode_utf8(s).len() <= 65535,
{
    seq![(encode_utf8(s).len() / 256) as u8, (encode_utf8(s).len() % 256) as u8] + encode_utf8(s)
}

/// Relies on `String::from_utf8`: it succeeds exactly on UTF-8-valid bytes
/// and decodes them to the characters vstd's `decode_utf8` describes.
#[verifier::external_body]
pub(crate) fn bytes_to_string(v: Vec<u8>) -> (r: Option<String>)
    ensures
        r is Some <==> valid_utf8(v@),
        r matches Some(s) ==> s@ == decode_utf8(v@),
{
    match String::from_utf8(v) {
        Ok(s) => Some(s),
        Err(_) => None,
    }
}

// ---------------------------------------------------------------------------
// Payload variants and their ghost models.
// ---------------------------------------------------------------------------

/// Connect flags: bit 2 asks for a will topic and message.
pub open spec fn will_flag(flags: u8) -> bool {
    flags & 0x04 != 0
}

/// Connect flags: bit 7 asks for a username field.
pub open spec fn username_flag(flags: u8) -> bool {
    flags & 0x80 != 0
}

/// Connect flags: bit 6 asks for a password field.
pub open spec fn password_flag(flags: u8) -> bool {
    flags & 0x40 != 0
}

/// Connect flags: bit 1 requests a clean session.
pub open spec fn clean_session_flag(flags: u8) -> bool {
    flags & 0x02 != 0
}

/// The Connect payload: client id first, then will topic and message,
/// username and password, each only when its connect flag asks for it.
/// A field whose flag is clear is carried as the empty string.
#[derive(Debug)]
pub struct ConnectPayload {
    pub client_id: Option<String>,
    pub will_topic: Option<String>,
    pub will_message: Option<String>,
    pub username: Option<String>,
    pub password: Option<String>,
}

/// Ghost form of a Connect payload.
pub struct ConnectPayloadModel {
    pub client_id: Option<Seq<char>>,
    pub will_topic: Option<Seq<char>>,
    pub will_message: Option<Seq<char>>,
    pub username: Option<Seq<char>>,
    pub password: Option<Seq<char>>,
}

impl View for ConnectPayload {
    type V = ConnectPayloadModel;

    open spec fn view(&self) -> ConnectPayloadModel {
        ConnectPayloadModel {
            client_id: match self.client_id {
                Some(ref s) => Some(s@),
                None => None,
            },
            will_topic: match self.will_topic {
                Some(ref s) => Some(s@),
                None => None,
            },
            will_message: match self.will_message {
                Some(ref s) => Some(s@),
                None => None,
            },
            username: match self.username {
                Some(ref s) => Some(s@),
                None => None,
            },
            password: match self.password {
                Some(ref s) => Some(s@),
                None => None,
            },
        }
    }
}

/// Whether a Connect payload can be encoded under these flags: each field
/// the flags call for is present and fits a two-byte length prefix.
pub open spec fn spec_connect_payload_encodable(flags: u8, p: ConnectPayloadModel) -> bool {
    &&& p.client_id is Some && encode_utf8(p.client_id.unwrap()).len() <= 65535
    &&& will_flag(flags) ==> p.will_topic is Some && encode_utf8(p.will_topic.unwrap()).len()
        <= 65535 && p.will_message is Some && encode_utf8(p.will_message.unwrap()).len() <= 65535
    &&& username_flag(flags) ==> p.username is Some && encode_utf8(p.username.unwrap()).len()
        <= 65535
    &&& password_flag(flags) ==> p.password is Some && encode_utf8(p.password.unwrap()).len()
        <= 65535
}

/// The bytes a Connect payload encodes to under these flags: the client id
/// field, then each optional field whose flag is set, in MQTT's fixed
/// order.
pub open spec fn spec_connect_payload_bytes(flags: u8, p: ConnectPayloadModel) -> Seq<u8>
    recommends
        spec_connect_payload_encodable(flags, p),
{
    spec_field_encode(p.client_id.unwrap()) + (if will_flag(flags) {
        spec_field_encode(p.will_topic.unwrap()) + spec_field_encode(p.will_message.unwrap())
    } else {
        Seq::<u8>::empty()
    }) + (if username_flag(flags) {
        spec_field_encode(p.username.unwrap())
    } else {
        Seq::<u8>::empty()
    }) + (if password_flag(flags) {
        spec_field_encode(p.password.unwrap())
    } else {
        Seq::<u8>::empty()
    })
}

/// Append one length-prefixed string field to `out`.
fn push_string_field(out: &mut Vec<u8>, s: &String)
    requires
        encode_utf8(s@).len() <= 65535,
    ensures
        final(out)@ == old(out)@ + spec_field_encode(s@),
{
    let mut bytes = s.as_str().as_bytes_vec();
    let len = bytes.len();
    let ghost before = out@;
    out.push((len / 256) as u8);
    out.push((len % 256) as u8);
    out.append(&mut bytes);
    proof {
        assert(out@ =~= before + spec_field_encode(s@));
    }
}

impl ConnectPayload {
    /// Encode under the header's connect flags: the client id field, then
    /// each optional field whose flag is set.
    pub fn to_bytes(&self, connect_flags: u8) -> (r: Vec<u8>)
        requires
            spec_connect_payload_encodable(connect_flags, self@),
        ensures
            r@ == spec_connect_payload_bytes(connect_flags, self@),
    {
        let mut buffer: Vec<u8> = Vec::new();
        match &self.client_id {
            Some(client_id) => push_string_field(&mut buffer, client_id),
            None => vstd::pervasive::unreached(),
        };
        if connect_flags & 0x04 != 0 {
            match (&self.will_topic, &self.will_message) {
                (Some(will_topic), Some(will_message)) => {
                    push_string_field(&mut buffer, will_topic);
                    push_string_field(&mut buffer, will_message);
                },
                _ => vstd::pervasive::unreached(),
            };
        }
        if connect_flags & 0x80 != 0 {
            match &self.username {
                Some(username) => push_string_field(&mut buffer, username),
                None => vstd::pervasive::unreached(),
            };
        }
        if connect_flags & 0x40 != 0 {
            match &self.password {
                Some(password) => push_string_field(&mut buffer, password),
                None => vstd::pervasive::unreached(),
            };
        }
        proof {
            assert(buffer@ =~= spec_connect_payload_bytes(connect_flags, self@));
        }
        buffer
    }
}

/// The Publish payload: the application bytes, verbatim.
#[derive(Debug)]
pub struct PublishPayload {
    pub payload: Vec<u8>,
}

impl View for PublishPayload {
    type V = Seq<u8>;

    open spec fn view(&self) -> Seq<u8> {
        self.payload@
    }
}

impl PublishPayload {
    /// Encode: a publish payload is its bytes, with no further framing.
    pub fn to_bytes(&self) -> (r: Vec<u8>)
        ensures
            r@ == self.payload@,
    {
        let mut out: Vec<u8> = Vec::new();
        let mut i: usize = 0;
        while i < self.payload.len()
            invariant
                i <= self.payload.len(),
                out@ == self.payload@.take(i as int),
            decreases self.payload.len() - i,
        {
            out.push(self.payload[i]);
            i = i + 1;
            proof {
                assert(out@ =~= self.payload@.take(i as int));
            }
        }
        proof {
            assert(out@ =~= self.payload@);
        }
        out
    }
}

/// The Subscribe payload: one topic filter and a QoS level already masked
/// to its low two bits.
#[derive(Debug)]
pub struct SubscribePayload {
    pub subscription_topic: String,
    pub qos: u8,
}

/// Ghost form of a Subscribe payload.
pub struct SubscribePayloadModel {
    pub subscription_topic: Seq<char>,
    pub qos: u8,
}

impl View for SubscribePayload {
    type V = SubscribePayloadModel;

    open spec fn view(&self) -> SubscribePayloadModel {
        SubscribePayloadModel { subscription_topic: self.subscription_topic@, qos: self.qos }
    }
}

/// The payload of a packet kind that carries none.
#[derive(Debug)]
pub struct EmptyPayload;

/// A parsed payload, tagged by the header kind that selected its parser.
#[derive(Debug)]
pub enum Payload {
    Connect(ConnectPayload),
    Publish(PublishPayload),
    Subscribe(SubscribePayload),
    Empty(EmptyPayload),
}

/// Ghost form of a payload.
pub enum PayloadModel {
    Connect(ConnectPayloadModel),
    Publish(Seq<u8>),
    Subscribe(SubscribePayloadModel),
    Empty,
}

impl View for Payload {
    type V = PayloadModel;

    open spec fn view(&self) -> PayloadModel {
        match self {
            Payload::Connect(p) => PayloadModel::Connect(p@),
            Payload::Publish(p) => PayloadModel::Publish(p@),
            Payload::Subscribe(p) => PayloadModel::Subscribe(p@),
            Payload::Empty(_) => PayloadModel::Empty,
        }
    }
}

// ---------------------------------------------------------------------------
// Spec-level payload parsers.
// ---------------------------------------------------------------------------

/// Assemble a Connect payload model; absent optional fields are empty.
pub open spec fn spec_connect_model(
    client_id: Seq<char>,
    will_topic: Seq<char>,
    will_message: Seq<char>,
    username: Seq<char>,
    password: Seq<char>,
) -> ConnectPayloadModel {
    ConnectPayloadModel {
        client_id: Some(client_id),
        will_topic: Some(will_topic),
        will_message: Some(will_message),
        username: Some(username),
        password: Some(password),
    }
}

/// Connect payload parse, stage three: the password field, when flag bit 6
/// asks for it.
pub open spec fn spec_parse_password(
    flags: u8,
    d: Seq<u8>,
    i: int,
    client_id: Seq<char>,
    will_topic: Seq<char>,
    will_message: Seq<char>,
    username: Seq<char>,
) -> Result<ConnectPayloadModel, ValidationError> {
    if password_flag(flags) {
        match spec_field_result(d, i) {
            Ok(password) => Ok(
                spec_connect_model(client_id, will_topic, will_message, username, password),
            ),
            Err(e) => Err(e),
        }
    } else {
        Ok(
            spec_connect_model(
                client_id,
                will_topic,
                will_message,
                username,
                Seq::<char>::empty(),
            ),
        )
    }
}

/// Connect payload parse, stage two: the username field, when flag bit 7
/// asks for it.
pub open spec fn spec_parse_username(
    flags: u8,
    d: Seq<u8>,
    i: int,
    client_id: Seq<char>,
    will_topic: Seq<char>,
    will_message: Seq<char>,
) -> Result<ConnectPayloadModel, ValidationError> {
    if username_flag(flags) {
        match spec_field_result(d, i) {
            Ok(username) => spec_parse_password(
                flags,
                d,
                i + 2 + spec_field_len(d, i),
                client_id,
                will_topic,
                will_message,
                username,
            ),
            Err(e) => Err(e),
        }
    } else {
        spec_parse_password(flags, d, i, client_id, will_topic, will_message, Seq::<char>::empty())
    }
}

/// Connect payload parse, stage one: will topic and will message, when flag
/// bit 2 asks for them.
pub open spec fn spec_parse_will(flags: u8, d: Seq<u8>, i: int, client_id: Seq<char>) -> Result<
    ConnectPayloadModel,
    ValidationError,
> {
    if will_flag(flags) {
        match spec_field_result(d, i) {
            Ok(will_topic) => {
                let j = i + 2 + spec_field_len(d, i);
                match spec_field_result(d, j) {
                    Ok(will_message) => spec_parse_username(
                        flags,
                        d,
                        j + 2 + spec_field_len(d, j),
                        client_id,
                        will_topic,
                        will_message,
                    ),
                    Err(e) => Err(e),
                }
            },
            Err(e) => Err(e),
        }
    } else {
        spec_parse_username(flags, d, i, client_id, Seq::<char>::empty(), Seq::<char>::empty())
    }
}

/// Spec-level Connect payload parse: client id first (one to 23 bytes),
/// then the optional fields in MQTT's fixed order, each present exactly
/// when its connect flag is set.
pub open spec fn spec_parse_connect_payload(flags: u8, d: Seq<u8>) -> Result<
    ConnectPayloadModel,
    ValidationError,
> {
    match spec_field_result(d, 0) {
        Ok(client_id) => {
            if spec_field_len(d, 0) == 0 {
                Err(ValidationError::EmptyClientId)
            } else if spec_field_len(d, 0) > 23 {
                Err(ValidationError::ClientIdTooLong)
            } else {
                spec_parse_will(flags, d, 2 + spec_field_len(d, 0), client_id)
            }
        },
        Err(e) => Err(e),
    }
}

/// Spec-level Subscribe payload parse: one topic filter, then a QoS byte
/// whose top six bits must be clear; the QoS is its low two bits.
pub open spec fn spec_parse_subscribe_payload(d: Seq<u8>) -> Result<
    SubscribePayloadModel,
    ValidationError,
> {
    match spec_field_result(d, 0) {
        Ok(topic) => {
            let qi = 2 + spec_field_len(d, 0);
            if qi >= d.len() {
                Err(ValidationError::TruncatedField)
            } else if d[qi] & 0xfc != 0 {
                Err(ValidationError::InvalidQoS)
            } else {
                Ok(SubscribePayloadModel { subscription_topic: topic, qos: d[qi] & 0x03 })
            }
        },
        Err(e) => Err(e),
    }
}

// ---------------------------------------------------------------------------
// Executable payload parser.
// ---------------------------------------------------------------------------

/// Parses a raw payload under the kind of the variable header that preceded
/// it.
pub struct PayloadFactory;

impl PayloadFactory {
    /// Extract one length-prefixed UTF-8 string field at `*start_idx`,
    /// advancing the cursor past it; the cursor is left in place on error.
    pub fn extract_utf8_string(payload_data: &[u8], start_idx: &mut usize) -> (r: Result<
        (usize, String),
        ValidationError,
    >)
        ensures
            ({
                let d = payload_data@;
                let i = *old(start_idx) as int;
                match r {
                    Ok(p) => {
                        &&& spec_field_result(d, i) matches Ok(cs) && p.1@ == cs
                        &&& p.0 == spec_field_len(d, i)
                        &&& *final(start_idx) == i + 2 + spec_field_len(d, i)
                    },
                    Err(e) => {
                        &&& spec_field_result(d, i) == Err::<Seq<char>, ValidationError>(e)
                        &&& *final(start_idx) == *old(start_idx)
                    },
                }
            }),
    {
        let i = *start_idx;
        if payload_data.len() < 2 || i > payload_data.len() - 2 {
            return Err(ValidationError::TruncatedField);
        }
        let string_length: usize = (payload_data[i] as usize) * 256 + (payload_data[i + 1]
            as usize);
        if string_length > payload_data.len() - (i + 2) {
            return Err(ValidationError::TruncatedField);
        }
        let field = vstd::slice::slice_subrange(payload_data, i + 2, i + 2 + string_length);
        let bytes = vstd::slice::slice_to_vec(field);
        match bytes_to_string(bytes) {
            Some(extracted_string) => {
                *start_idx = i + 2 + string_length;
                Ok((string_length, extracted_string))
            },
            None => Err(ValidationError::InvalidUtf8),
        }
    }

    /// Parse a payload under the given variable header's kind: Connect and
    /// Subscribe payloads are decoded field by field, a Publish payload is
    /// the bytes verbatim, and any other kind carries an empty payload.
    pub fn parse_payload(variable_header: &VariableHeader, payload_data: Vec<u8>) -> (r: Result<
        Payload,
        ValidationError,
    >)
        ensures
            (match *variable_header {
                VariableHeader::Connect(h) => match spec_parse_connect_payload(
                    h.connect_flags,
                    payload_data@,
                ) {
                    Ok(m) => r matches Ok(p) && p@ == PayloadModel::Connect(m),
                    Err(e) => r == Err::<Payload, ValidationError>(e),
                },
                VariableHeader::Publish(_) => r matches Ok(p) && p@ == PayloadModel::Publish(
                    payload_data@,
                ),
                VariableHeader::Subscribe(_) => match spec_parse_subscribe_payload(payload_data@) {
                    Ok(m) => r matches Ok(p) && p@ == PayloadModel::Subscribe(m),
                    Err(e) => r == Err::<Payload, ValidationError>(e),
                },
                VariableHeader::ConnAck(_) => r matches Ok(p) && p@ == PayloadModel::Empty,
            }),
    {
        match variable_header {
            VariableHeader::Connect(connect_header) => {
                let flags = connect_header.connect_flags;
                let mut payload_idx: usize = 0;
                let (client_id_length, client_id) = match Self::extract_utf8_string(
                    payload_data.as_slice(),
                    &mut payload_idx,
                ) {
                    Ok(p) => p,
                    Err(e) => {
                        return Err(e);
                    },
                };
                if client_id_length == 0 {
                    return Err(ValidationError::EmptyClientId);
                }
                if client_id_length > 23 {
                    return Err(ValidationError::ClientIdTooLong);
                }
                let (will_topic, will_message) = if flags & 0x04 != 0 {
                    let will_topic = match Self::extract_utf8_string(
                        payload_data.as_slice(),
                        &mut payload_idx,
                    ) {
                        Ok(p) => p.1,
                        Err(e) => {
                            return Err(e);
                        },
                    };
                    let will_message = match Self::extract_utf8_string(
                        payload_data.as_slice(),
                        &mut payload_idx,
                    ) {
                        Ok(p) => p.1,
                        Err(e) => {
                            return Err(e);
                        },
                    };
                    (will_topic, will_message)
                } else {
                    (String::new(), String::new())
                };
                let username = if flags & 0x80 != 0 {
                    match Self::extract_utf8_string(payload_data.as_slice(), &mut payload_idx) {
                        Ok(p) => p.1,
                        Err(e) => {
                            return Err(e);
                        },
                    }
                } else {
                    String::new()
                };
                let password = if flags & 0x40 != 0 {
                    match Self::extract_utf8_string(payload_data.as_slice(), &mut payload_idx) {
                        Ok(p) => p.1,
                        Err(e) => {
                            return Err(e);
                        },
                    }
                } else {
                    String::new()
                };
                Ok(
                    Payload::Connect(
                        ConnectPayload {
                            client_id: Some(client_id),
                            will_topic: Some(will_topic),
                            will_message: Some(will_message),
                            username: Some(username),
                            password: Some(password),
                        },
                    ),
                )
            },
            VariableHeader::Publish(_) => Ok(Payload::Publish(PublishPayload { payload: payload_data })),
            VariableHeader::Subscribe(_) => {
                let mut payload_idx: usize = 0;
                let subscription_topic = match Self::extract_utf8_string(
                    payload_data.as_slice(),
                    &mut payload_idx,
                ) {
                    Ok(p) => p.1,
                    Err(e) => {
                        return Err(e);
                    },
                };
                if payload_idx >= payload_data.len() {
                    return Err(ValidationError::TruncatedField);
                }
                let mut qos = payload_data[payload_idx];
                if qos & 0xfc != 0 {
                    return Err(ValidationError::InvalidQoS);
                }
                qos = qos & 0x03;
                Ok(Payload::Subscribe(SubscribePayload { subscription_topic, qos }))
            },
            VariableHeader::ConnAck(_) => Ok(Payload::Empty(EmptyPayload)),
        }
    }
}

} // verus!
