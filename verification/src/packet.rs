//! MQTT packets as `mqttbytes` reads and writes them.

use bytes::{Bytes, BytesMut};
use mqttbytes::v4::read as decode;
use mqttbytes::v4::ConnectReturnCode as V4Code;
use mqttbytes::v4::Packet as V4;
use mqttbytes::v4::Packet::Disconnect as V4Disconnect;
use mqttbytes::Error as DecodeError;
use vstd::prelude::*;
use vstd::utf8::{decode_utf8, encode_utf8, valid_utf8};

use crate::buffer::{buffered, fits, held};
use crate::error::MqttError;
use crate::protocol::{be16_at, header_of, QoS};

verus! {

/// The longest remaining length that a packet may announce, in bytes.
pub const MAX_PACKET_SIZE: usize = 1_048_576;

/// An MQTT packet, with what is looked at in it.
#[derive(Debug)]
pub enum Packet {
    Connect,
    ConnAck,
    Publish { topic: String, payload: Bytes },
    Subscribe { filters: Vec<String> },
    SubAck,
    Unsubscribe,
    Disconnect,
    /// A packet of any other type.
    Other,
}

/// A `Packet` with its strings and bytes as sequences.
pub enum PacketView {
    Connect,
    ConnAck,
    Publish { topic: Seq<char>, payload: Seq<u8> },
    Subscribe { filters: Seq<Seq<char>> },
    SubAck,
    Unsubscribe,
    Disconnect,
    Other,
}

impl View for Packet {
    type V = PacketView;

    open spec fn view(&self) -> PacketView {
        match *self {
            Packet::Connect => PacketView::Connect,
            Packet::ConnAck => PacketView::ConnAck,
            Packet::Publish { topic, payload } => PacketView::Publish {
                topic: topic@,
                payload: held(payload),
            },
            Packet::Subscribe { filters } => PacketView::Subscribe {
                filters: filters@.map_values(|f: String| f@),
            },
            Packet::SubAck => PacketView::SubAck,
            Packet::Unsubscribe => PacketView::Unsubscribe,
            Packet::Disconnect => PacketView::Disconnect,
            Packet::Other => PacketView::Other,
        }
    }
}

/// A number below 65536 in two bytes, the more significant one first.
pub open spec fn be16(n: int) -> Seq<u8> {
    seq![(n / 256 % 256) as u8, (n % 256) as u8]
}

/// A remaining length in as few bytes as it takes: seven bits each, the least first, and the
/// eighth set on all but the last.
pub open spec fn length_bytes(n: int) -> Seq<u8> {
    if n < 128 {
        seq![n as u8]
    } else if n < 16384 {
        seq![(n % 128 + 128) as u8, (n / 128) as u8]
    } else if n < 2097152 {
        seq![(n % 128 + 128) as u8, (n / 128 % 128 + 128) as u8, (n / 16384) as u8]
    } else {
        seq![
            (n % 128 + 128) as u8,
            (n / 128 % 128 + 128) as u8,
            (n / 16384 % 128 + 128) as u8,
            (n / 2097152) as u8,
        ]
    }
}

/// The longest remaining length that four bytes can say.
pub open spec fn longest() -> int {
    268_435_455
}

/// A packet: its first byte, its remaining length and what remains.
pub open spec fn frame(byte1: u8, body: Seq<u8>) -> Seq<u8> {
    seq![byte1] + length_bytes(body.len() as int) + body
}

/// A string in a packet: its length in bytes and its UTF-8.
pub open spec fn string_bytes(s: Seq<char>) -> Seq<u8> {
    be16(encode_utf8(s).len() as int) + encode_utf8(s)
}

/// What a CONNECT packet holds for a client of that name that asks for a clean session, with a
/// keep alive time of ten seconds.
pub open spec fn connect_body(id: Seq<char>) -> Seq<u8> {
    seq![0u8, 4, 77, 81, 84, 84, 4, 2, 0, 10] + string_bytes(id)
}

/// How a connection is answered.
#[derive(Debug, Clone, Copy, PartialEq, Eq, Structural)]
pub enum ConnectReturnCode {
    Success,
    RefusedProtocolVersion,
    BadClientId,
    ServiceUnavailable,
    BadUserNamePassword,
    NotAuthorized,
}

/// The number of a return code.
pub open spec fn return_number(code: ConnectReturnCode) -> u8 {
    match code {
        ConnectReturnCode::Success => 0,
        ConnectReturnCode::RefusedProtocolVersion => 1,
        ConnectReturnCode::BadClientId => 2,
        ConnectReturnCode::ServiceUnavailable => 3,
        ConnectReturnCode::BadUserNamePassword => 4,
        ConnectReturnCode::NotAuthorized => 5,
    }
}

/// What a CONNACK packet holds.
pub open spec fn connack_body(code: ConnectReturnCode, session_present: bool) -> Seq<u8> {
    seq![if session_present { 1u8 } else { 0u8 }, return_number(code)]
}

/// What a PUBLISH packet holds that is sent at most once.
pub open spec fn publish_body(topic: Seq<char>, payload: Seq<u8>) -> Seq<u8> {
    string_bytes(topic) + payload
}

/// The number of a quality of service.
pub open spec fn qos_number(qos: QoS) -> u8 {
    match qos {
        QoS::AtMostOnce => 0,
        QoS::AtLeastOnce => 1,
        QoS::ExactlyOnce => 2,
    }
}

/// What a SUBSCRIBE packet holds for one topic, without a packet id.
pub open spec fn subscribe_body(topic: Seq<char>, qos: QoS) -> Seq<u8> {
    seq![0u8, 0u8] + string_bytes(topic) + seq![qos_number(qos)]
}

/// What a SUBACK packet holds that grants a subscription.
pub open spec fn suback_body(pkid: u16, granted: QoS) -> Seq<u8> {
    be16(pkid as int) + seq![qos_number(granted)]
}

/// The whole CONNECT packet of a client of that name.
pub open spec fn connect_packet(id: Seq<char>) -> Seq<u8> {
    frame(0x10, connect_body(id))
}

/// The whole CONNACK packet that accepts a connection.
pub open spec fn connack_packet() -> Seq<u8> {
    frame(0x20, connack_body(ConnectReturnCode::Success, false))
}

/// The whole PUBLISH packet, sent at most once.
pub open spec fn publish_packet(topic: Seq<char>, payload: Seq<u8>) -> Seq<u8> {
    frame(0x30, publish_body(topic, payload))
}

/// The whole SUBSCRIBE packet for one topic.
pub open spec fn subscribe_packet(topic: Seq<char>) -> Seq<u8> {
    frame(0x82, subscribe_body(topic, QoS::AtMostOnce))
}

/// The whole UNSUBSCRIBE packet for one topic.
pub open spec fn unsubscribe_packet(pkid: u16, topic: Seq<char>) -> Seq<u8> {
    frame(0xA2, be16(pkid as int) + string_bytes(topic))
}

/// The whole SUBACK packet that grants a subscription.
pub open spec fn suback_packet() -> Seq<u8> {
    frame(0x90, suback_body(0, QoS::AtMostOnce))
}

/// The whole DISCONNECT packet.
pub open spec fn disconnect_packet() -> Seq<u8> {
    frame(0xE0, Seq::empty())
}

/// What writing a packet leaves in a buffer and returns: the packet behind what was there, or,
/// where the packet is too long, its first byte alone.
pub open spec fn written(
    before: Seq<u8>,
    byte1: u8,
    body: Seq<u8>,
    r: Result<(), MqttError>,
    after: Seq<u8>,
) -> bool {
    if body.len() <= longest() {
        r is Ok && after == before + frame(byte1, body)
    } else {
        r == Err::<(), MqttError>(MqttError::PayloadTooLong) && after == before.push(byte1)
    }
}

/// There is room for a packet behind what is in a buffer, or, where the packet is too long, for its
/// first byte.
pub open spec fn room(before: nat, body: nat) -> bool {
    &&& fits(before + 1)
    &&& body <= longest() ==> fits(before + body + 5)
}

/// There is a string at `i` in `body`: a length, and that many bytes of UTF-8 behind it.
pub open spec fn string_at(body: Seq<u8>, i: int) -> bool {
    &&& i + 2 <= body.len()
    &&& i + 2 + be16_at(body, i) <= body.len()
    &&& valid_utf8(body.subrange(i + 2, i + 2 + be16_at(body, i)))
}

/// The string at `i` in `body`.
pub open spec fn string_value(body: Seq<u8>, i: int) -> Seq<char> {
    decode_utf8(body.subrange(i + 2, i + 2 + be16_at(body, i)))
}

/// Where the string at `i` in `body` ends.
pub open spec fn string_end(body: Seq<u8>, i: int) -> int {
    i + 2 + be16_at(body, i)
}

/// The strings from `i` on are the last thing in `body`.
pub open spec fn strings_to_end(body: Seq<u8>, i: int) -> bool
    decreases body.len() - i,
{
    i == body.len() || string_at(body, i) && strings_to_end(body, string_end(body, i))
}

/// The topics that are asked for from `i` on in `body`, each with a quality of service behind it,
/// if they are the last thing there.
pub open spec fn filters_to_end(body: Seq<u8>, i: int) -> Option<Seq<Seq<char>>>
    decreases body.len() - i,
{
    if i == body.len() {
        Some(Seq::empty())
    } else if string_at(body, i) && string_end(body, i) < body.len() && body[string_end(body, i)]
        % 4 <= 2 {
        match filters_to_end(body, string_end(body, i) + 1) {
            Some(others) => Some(seq![string_value(body, i)] + others),
            None => None,
        }
    } else {
        None
    }
}

/// Where the will of a client ends that starts at `i` in the body of its CONNECT packet, by the
/// flags of the packet: a topic and a message, or nothing.
pub open spec fn will_end(body: Seq<u8>, flags: u8, i: int) -> Option<int> {
    if flags / 4 % 2 == 0 {
        if flags / 8 % 8 == 0 {
            Some(i)
        } else {
            None
        }
    } else if string_at(body, i) && flags / 8 % 4 <= 2 && string_end(body, i) + 2 <= body.len()
        && string_end(body, string_end(body, i)) <= body.len() {
        Some(string_end(body, string_end(body, i)))
    } else {
        None
    }
}

/// There is a login from `i` on in the body of a CONNECT packet, as its flags say: a user name, a
/// password, both or none.
pub open spec fn login_at(body: Seq<u8>, flags: u8, i: int) -> bool {
    let user = flags / 128 % 2 == 1;
    let password_at = if user {
        string_end(body, i)
    } else {
        i
    };
    &&& user ==> string_at(body, i)
    &&& flags / 64 % 2 == 1 ==> string_at(body, password_at)
}

/// The body of a CONNECT packet: the name and the version of the protocol, flags, a time to keep
/// the connection alive, the name of the client, its will and its login.
pub open spec fn is_connect(body: Seq<u8>) -> bool {
    &&& body.len() >= 10
    &&& body.take(6) == seq![0u8, 4, 77, 81, 84, 84]
    &&& 4 <= body[6] <= 5
    &&& string_at(body, 10)
    &&& will_end(body, body[7], string_end(body, 10)) matches Some(i) && login_at(body, body[7], i)
}

/// The content of a whole packet, by its first byte and what remains of it, if it is one that is
/// taken.
pub open spec fn packet_content(byte1: u8, body: Seq<u8>) -> Option<PacketView> {
    match byte1 / 16 {
        1 => if is_connect(body) {
            Some(PacketView::Connect)
        } else {
            None
        },
        2 => if body.len() >= 2 && body[1] <= 5 {
            Some(PacketView::ConnAck)
        } else {
            None
        },
        3 => publish_of(byte1 / 2 % 4, body),
        // acknowledgements, which hold a packet id
        4 | 5 | 6 | 7 => if body.len() >= 2 {
            Some(PacketView::Other)
        } else {
            None
        },
        8 => if body.len() >= 2 && filters_to_end(body, 2) is Some {
            Some(PacketView::Subscribe { filters: filters_to_end(body, 2)->0 })
        } else {
            None
        },
        9 => if body.len() >= 3 && forall|i: int|
            2 <= i < body.len() ==> (#[trigger] body[i] <= 2 || body[i] == 128) {
            Some(PacketView::SubAck)
        } else {
            None
        },
        10 => if body.len() >= 2 && strings_to_end(body, 2) {
            Some(PacketView::Unsubscribe)
        } else {
            None
        },
        11 => if body.len() == 2 {
            Some(PacketView::Other)
        } else {
            None
        },
        // pings, whatever they hold
        12 | 13 => Some(PacketView::Other),
        14 => Some(PacketView::Disconnect),
        _ => None,
    }
}

/// The content of a PUBLISH packet with that quality of service: the topic, an id that is not zero
/// unless it is sent at most once, and the payload.
pub open spec fn publish_of(qos: u8, body: Seq<u8>) -> Option<PacketView> {
    let end = string_end(body, 0);
    if !string_at(body, 0) || qos > 2 {
        None
    } else if qos == 0 {
        Some(PacketView::Publish { topic: string_value(body, 0), payload: body.skip(end) })
    } else if end + 2 <= body.len() && be16_at(body, end) != 0 {
        Some(PacketView::Publish { topic: string_value(body, 0), payload: body.skip(end + 2) })
    } else {
        None
    }
}

/// Why `mqttbytes::v4::read` refuses a whole packet that it does not take.
pub uninterp spec fn refusal(packet: Seq<u8>) -> DecodeError;

/// The bytes of the packet at the start of `s`.
pub open spec fn first_packet(s: Seq<u8>) -> Seq<u8> {
    match header_of(s) {
        Err(_) => Seq::empty(),
        Ok((header_len, len)) => s.take(header_len + len),
    }
}

/// What reading one packet off the start of a stream gives, where no remaining length may be over
/// the limit, and `refused` says why the packet is refused if it is not one that is taken.
pub open spec fn packet_outcome(s: Seq<u8>, max_size: int, refused: DecodeError) -> Result<
    PacketView,
    MqttError,
> {
    match header_of(s) {
        Err(e) => Err(e),
        Ok((header_len, len)) => if len > max_size {
            Err(MqttError::PayloadSizeLimitExceeded(len as usize))
        } else if s.len() < header_len + len {
            Err(MqttError::InsufficientBytes((header_len + len - s.len()) as usize))
        } else {
            match packet_content(s[0], s.subrange(header_len, header_len + len)) {
                Some(content) => Ok(content),
                None => Err(MqttError::Content(refused)),
            }
        },
    }
}

/// What reading one packet off the start of a stream gives, where no remaining length may be over
/// the limit.
pub open spec fn packet_read(s: Seq<u8>, max_size: int) -> Result<PacketView, MqttError> {
    packet_outcome(s, max_size, refusal(first_packet(s)))
}

/// What reading one packet off the start of a stream leaves: the bytes behind the packet, or all
/// of them where there is no whole packet within the limit.
pub open spec fn packet_rest(s: Seq<u8>, max_size: int) -> Seq<u8> {
    match header_of(s) {
        Err(_) => s,
        Ok((header_len, len)) => if len > max_size || s.len() < header_len + len {
            s
        } else {
            s.skip(header_len + len)
        },
    }
}

/// What one call of `mqttbytes::v4::read` brought.
enum Incoming {
    Connect,
    ConnAck,
    Publish(String, Bytes),
    Subscribe(Vec<String>),
    SubAck,
    Unsubscribe,
    Disconnect,
    Other,
    Wait(usize),
    TooLong(usize),
    BadLength,
    Refused(DecodeError),
}

impl Incoming {
    spec fn outcome(self) -> Result<PacketView, MqttError> {
        match self {
            Incoming::Connect => Ok(PacketView::Connect),
            Incoming::ConnAck => Ok(PacketView::ConnAck),
            Incoming::Publish(topic, payload) => Ok(
                PacketView::Publish { topic: topic@, payload: held(payload) },
            ),
            Incoming::Subscribe(filters) => Ok(
                PacketView::Subscribe { filters: filters@.map_values(|f: String| f@) },
            ),
            Incoming::SubAck => Ok(PacketView::SubAck),
            Incoming::Unsubscribe => Ok(PacketView::Unsubscribe),
            Incoming::Disconnect => Ok(PacketView::Disconnect),
            Incoming::Other => Ok(PacketView::Other),
            Incoming::Wait(more) => Err(MqttError::InsufficientBytes(more)),
            Incoming::TooLong(len) => Err(MqttError::PayloadSizeLimitExceeded(len)),
            Incoming::BadLength => Err(MqttError::MalformedRemainingLength),
            Incoming::Refused(e) => Err(MqttError::Content(e)),
        }
    }
}

/// `mqttbytes::v4::read` reads the fixed header at the start of the buffer, refuses a remaining
/// length over `max_size`, waits for the whole packet, takes it out of the buffer, and then reads
/// what is in it, from the packet alone. It takes the packets that `packet_content` says and
/// refuses all others; with which error is named, not said.
#[verifier::external_body]
fn v4_read(stream: &mut BytesMut, max_size: usize) -> (r: Incoming)
    ensures
        r.outcome() == packet_outcome(
            buffered(*old(stream)),
            max_size as int,
            refusal(first_packet(buffered(*old(stream)))),
        ),
        buffered(*final(stream)) == packet_rest(buffered(*old(stream)), max_size as int),
{
    match decode(stream, max_size) {
        Ok(V4::Connect(_)) => Incoming::Connect,
        Ok(V4::ConnAck(_)) => Incoming::ConnAck,
        Ok(V4::Publish(p)) => Incoming::Publish(p.topic, p.payload),
        Ok(V4::Subscribe(s)) => Incoming::Subscribe(s.filters.into_iter().map(|f| f.path).collect()),
        Ok(V4::SubAck(_)) => Incoming::SubAck,
        Ok(V4::Unsubscribe(_)) => Incoming::Unsubscribe,
        Ok(V4Disconnect) => Incoming::Disconnect,
        Ok(_) => Incoming::Other,
        Err(DecodeError::InsufficientBytes(more)) => Incoming::Wait(more),
        Err(DecodeError::PayloadSizeLimitExceeded(len)) => Incoming::TooLong(len),
        Err(DecodeError::MalformedRemainingLength) => Incoming::BadLength,
        Err(e) => Incoming::Refused(e),
    }
}

/// Reads one packet off the start of the buffer.
pub fn read_packet(stream: &mut BytesMut, max_size: usize) -> (r: Result<Packet, MqttError>)
    ensures
        match (r, packet_read(buffered(*old(stream)), max_size as int)) {
            (Ok(packet), Ok(expected)) => packet@ == expected,
            (Err(e), Err(expected)) => e == expected,
            _ => false,
        },
        buffered(*final(stream)) == packet_rest(buffered(*old(stream)), max_size as int),
{
    match v4_read(stream, max_size) {
        Incoming::Connect => Ok(Packet::Connect),
        Incoming::ConnAck => Ok(Packet::ConnAck),
        Incoming::Publish(topic, payload) => Ok(Packet::Publish { topic, payload }),
        Incoming::Subscribe(filters) => Ok(Packet::Subscribe { filters }),
        Incoming::SubAck => Ok(Packet::SubAck),
        Incoming::Unsubscribe => Ok(Packet::Unsubscribe),
        Incoming::Disconnect => Ok(Packet::Disconnect),
        Incoming::Other => Ok(Packet::Other),
        Incoming::Wait(more) => Err(MqttError::InsufficientBytes(more)),
        Incoming::TooLong(len) => Err(MqttError::PayloadSizeLimitExceeded(len)),
        Incoming::BadLength => Err(MqttError::MalformedRemainingLength),
        Incoming::Refused(e) => Err(MqttError::Content(e)),
    }
}

/// `mqttbytes::v4::Connect::write` appends the CONNECT packet of a client of that name. It sets a
/// byte at a place counted from the start of the buffer, so the buffer must be empty.
#[verifier::external_body]
pub(crate) fn write_connect(id: &str, buf: &mut BytesMut) -> (r: Result<(), MqttError>)
    requires
        buffered(*old(buf)).len() == 0,
        room(0, connect_body(id@).len()),
    ensures
        written(buffered(*old(buf)), 0x10, connect_body(id@), r, buffered(*final(buf))),
{
    match mqttbytes::v4::Connect::new(id).write(buf) {
        Ok(_) => Ok(()),
        Err(DecodeError::PayloadTooLong) => Err(MqttError::PayloadTooLong),
        Err(e) => Err(MqttError::Content(e)),
    }
}

/// `mqttbytes::v4::ConnAck::write` appends a CONNACK packet.
#[verifier::external_body]
pub(crate) fn write_connack(
    code: ConnectReturnCode,
    session_present: bool,
    buf: &mut BytesMut,
) -> (r: Result<(), MqttError>)
    requires
        room(buffered(*old(buf)).len(), 2),
    ensures
        written(
            buffered(*old(buf)),
            0x20,
            connack_body(code, session_present),
            r,
            buffered(*final(buf)),
        ),
{
    let code = match code {
        ConnectReturnCode::Success => V4Code::Success,
        ConnectReturnCode::RefusedProtocolVersion => V4Code::RefusedProtocolVersion,
        ConnectReturnCode::BadClientId => V4Code::BadClientId,
        ConnectReturnCode::ServiceUnavailable => V4Code::ServiceUnavailable,
        ConnectReturnCode::BadUserNamePassword => V4Code::BadUserNamePassword,
        ConnectReturnCode::NotAuthorized => V4Code::NotAuthorized,
    };
    match mqttbytes::v4::ConnAck::new(code, session_present).write(buf) {
        Ok(_) => Ok(()),
        Err(DecodeError::PayloadTooLong) => Err(MqttError::PayloadTooLong),
        Err(e) => Err(MqttError::Content(e)),
    }
}

/// `mqttbytes::v4::Publish::write` appends a PUBLISH packet, without a packet id. It refuses one
/// that is sent more than at most once, which would need an id.
#[verifier::external_body]
pub(crate) fn write_publish(
    topic: &str,
    qos: QoS,
    payload: Bytes,
    buf: &mut BytesMut,
) -> (r: Result<(), MqttError>)
    requires
        qos == QoS::AtMostOnce,
        room(buffered(*old(buf)).len(), publish_body(topic@, held(payload)).len()),
    ensures
        written(
            buffered(*old(buf)),
            0x30,
            publish_body(topic@, held(payload)),
            r,
            buffered(*final(buf)),
        ),
{
    let qos = match qos {
        QoS::AtMostOnce => mqttbytes::QoS::AtMostOnce,
        QoS::AtLeastOnce => mqttbytes::QoS::AtLeastOnce,
        QoS::ExactlyOnce => mqttbytes::QoS::ExactlyOnce,
    };
    match mqttbytes::v4::Publish::from_bytes(topic, qos, payload).write(buf) {
        Ok(_) => Ok(()),
        Err(DecodeError::PayloadTooLong) => Err(MqttError::PayloadTooLong),
        Err(e) => Err(MqttError::Content(e)),
    }
}

/// `mqttbytes::v4::Subscribe::write` appends a SUBSCRIBE packet for one topic, with 0 for its
/// packet id.
#[verifier::external_body]
pub(crate) fn write_subscribe(topic: &str, qos: QoS, buf: &mut BytesMut) -> (r: Result<
    (),
    MqttError,
>)
    requires
        room(buffered(*old(buf)).len(), subscribe_body(topic@, qos).len()),
    ensures
        written(
            buffered(*old(buf)),
            0x82,
            subscribe_body(topic@, qos),
            r,
            buffered(*final(buf)),
        ),
{
    let qos = match qos {
        QoS::AtMostOnce => mqttbytes::QoS::AtMostOnce,
        QoS::AtLeastOnce => mqttbytes::QoS::AtLeastOnce,
        QoS::ExactlyOnce => mqttbytes::QoS::ExactlyOnce,
    };
    match mqttbytes::v4::Subscribe::new(topic, qos).write(buf) {
        Ok(_) => Ok(()),
        Err(DecodeError::PayloadTooLong) => Err(MqttError::PayloadTooLong),
        Err(e) => Err(MqttError::Content(e)),
    }
}

/// `mqttbytes::v4::SubAck::write` appends a SUBACK packet that grants one subscription.
#[verifier::external_body]
pub(crate) fn write_suback(pkid: u16, granted: QoS, buf: &mut BytesMut) -> (r: Result<
    (),
    MqttError,
>)
    requires
        room(buffered(*old(buf)).len(), 3),
    ensures
        written(
            buffered(*old(buf)),
            0x90,
            suback_body(pkid, granted),
            r,
            buffered(*final(buf)),
        ),
{
    let code = mqttbytes::v4::SubscribeReasonCode::Success(match granted {
        QoS::AtMostOnce => mqttbytes::QoS::AtMostOnce,
        QoS::AtLeastOnce => mqttbytes::QoS::AtLeastOnce,
        QoS::ExactlyOnce => mqttbytes::QoS::ExactlyOnce,
    });
    match mqttbytes::v4::SubAck::new(pkid, vec![code]).write(buf) {
        Ok(_) => Ok(()),
        Err(DecodeError::PayloadTooLong) => Err(MqttError::PayloadTooLong),
        Err(e) => Err(MqttError::Content(e)),
    }
}

/// `mqttbytes::v4::Disconnect::write` appends the DISCONNECT packet.
#[verifier::external_body]
pub(crate) fn write_disconnect(buf: &mut BytesMut) -> (r: Result<(), MqttError>)
    requires
        room(buffered(*old(buf)).len(), 0),
    ensures
        written(buffered(*old(buf)), 0xE0, Seq::empty(), r, buffered(*final(buf))),
{
    match mqttbytes::v4::Disconnect.write(buf) {
        Ok(_) => Ok(()),
        Err(DecodeError::PayloadTooLong) => Err(MqttError::PayloadTooLong),
        Err(e) => Err(MqttError::Content(e)),
    }
}

} // verus!
