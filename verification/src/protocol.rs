//! How MQTT packets are framed in a stream of bytes, and the reader for publish streams.
//!
//! The reader keeps a PUBLISH packet as the bytes that it came in, so that it can be handed on to
//! any number of subscribers without being copied.

use bytes::{Bytes, BytesMut};
use vstd::prelude::*;
use vstd::utf8::valid_utf8;

use crate::buffer::{buffer_slice, buffered, held};
use crate::error::MqttError;

verus! {

/// What the `i`-th byte of a remaining length counts.
pub open spec fn place(i: int) -> int {
    if i == 0 {
        1
    } else if i == 1 {
        128
    } else if i == 2 {
        16384
    } else {
        2097152
    }
}

/// What the first `n` bytes of a remaining length amount to: seven bits each, the least first.
pub open spec fn length_value(s: Seq<u8>, n: int) -> int
    decreases n,
{
    if n <= 0 {
        0
    } else {
        length_value(s, n - 1) + (s[n - 1] % 128) * place(n - 1)
    }
}

/// The first `n` bytes all say that another byte follows.
pub open spec fn continues(s: Seq<u8>, n: int) -> bool {
    forall|i: int| 0 <= i < n ==> #[trigger] s[i] >= 128
}

/// The remaining length at the start of `s` takes `n` bytes.
pub open spec fn length_ends(s: Seq<u8>, n: int) -> bool {
    &&& 1 <= n <= 4
    &&& n <= s.len()
    &&& continues(s, n - 1)
    &&& s[n - 1] < 128
}

/// What reading a remaining length from the start of `s` gives: how many bytes it takes and its
/// value.
pub open spec fn length_of(s: Seq<u8>) -> Result<(int, int), MqttError> {
    if length_ends(s, 1) {
        Ok((1, length_value(s, 1)))
    } else if length_ends(s, 2) {
        Ok((2, length_value(s, 2)))
    } else if length_ends(s, 3) {
        Ok((3, length_value(s, 3)))
    } else if length_ends(s, 4) {
        Ok((4, length_value(s, 4)))
    } else if s.len() >= 4 {
        Err(MqttError::MalformedRemainingLength)
    } else {
        Err(MqttError::InsufficientBytes(1))
    }
}

proof fn lemma_length_of(s: Seq<u8>, n: int)
    requires
        length_ends(s, n),
    ensures
        length_of(s) == Ok::<(int, int), MqttError>((n, length_value(s, n))),
        0 <= length_value(s, n) < 268_435_456,
{
    reveal_with_fuel(length_value, 5);
    assert(n >= 2 ==> s[0] >= 128);
    assert(n >= 3 ==> s[1] >= 128);
    assert(n >= 4 ==> s[2] >= 128);
}

/// The steps that `length` takes on one byte, as arithmetic.
proof fn lemma_length_bits(byte: usize)
    requires
        byte < 256,
    ensures
        byte & 0x7F == byte % 128,
        (byte & 0x80 == 0) == (byte < 128),
        (byte & 0x7F) << 0 == (byte % 128),
        (byte & 0x7F) << 7 == (byte % 128) * 128,
        (byte & 0x7F) << 14 == (byte % 128) * 16384,
        (byte & 0x7F) << 21 == (byte % 128) * 2097152,
{
    assert(byte & 0x7F == byte % 128 && ((byte & 0x80 == 0) <==> byte < 128) && (byte & 0x7F) << 0
        == byte % 128 && (byte & 0x7F) << 7 == (byte % 128) * 128 && (byte & 0x7F) << 14 == (byte
        % 128) * 16384 && (byte & 0x7F) << 21 == (byte % 128) * 2097152) by (bit_vector)
        requires
            byte < 256,
    ;
}

/// Reads the remaining length at the start of `stream`: returns how many bytes it takes and its
/// value.
pub fn length(stream: &[u8]) -> (r: Result<(usize, usize), MqttError>)
    ensures
        match (r, length_of(stream@)) {
            (Ok((len_len, len)), Ok((n, value))) => len_len == n && len == value,
            (Err(e), Err(expected)) => e == expected,
            _ => false,
        },
        r matches Ok((len_len, len)) ==> 1 <= len_len <= 4 && len_len <= stream@.len() && len
            < 268_435_456,
{
    let mut len: usize = 0;
    let mut len_len: usize = 0;
    let mut shift: usize = 0;

    // Use continuation bit at position 7 to continue reading next
    // byte to frame 'length'.
    // Stream 0b1xxx_xxxx 0b1yyy_yyyy 0b1zzz_zzzz 0b0www_wwww will
    // be framed as number 0bwww_wwww_zzz_zzzz_yyy_yyyy_xxx_xxxx
    while len_len < stream.len()
        invariant
            0 <= len_len <= 3,
            len_len <= stream@.len(),
            shift == 7 * len_len,
            continues(stream@, len_len as int),
            len == length_value(stream@, len_len as int),
            len < place(len_len as int),
        decreases stream@.len() - len_len,
    {
        let byte: usize = stream[len_len] as usize;
        proof {
            lemma_length_bits(byte);
        }
        len_len += 1;
        len += (byte & 0x7F) << shift;

        // stop when continue bit is 0
        if (byte & 0x80) == 0 {
            proof {
                lemma_length_of(stream@, len_len as int);
            }
            return Ok((len_len, len));
        }
        shift += 7;

        // Only a max of 4 bytes allowed for remaining length
        // more than 4 shifts (0, 7, 14, 21) implies bad length
        if shift > 21 {
            return Err(MqttError::MalformedRemainingLength);
        }
    }

    // Not enough bytes to frame remaining length. wait for
    // one more byte
    Err(MqttError::InsufficientBytes(1))
}

/// MQTT packet type.
#[derive(Debug, Clone, Copy, PartialEq, Eq, Structural)]
pub enum PacketType {
    Connect,
    ConnAck,
    Publish,
    PubAck,
    PubRec,
    PubRel,
    PubComp,
    Subscribe,
    SubAck,
    Unsubscribe,
    UnsubAck,
    PingReq,
    PingResp,
    Disconnect,
}

/// Quality of service.
#[derive(Debug, Clone, Copy, PartialEq, Eq, Structural)]
pub enum QoS {
    AtMostOnce,
    AtLeastOnce,
    ExactlyOnce,
}

/// The packet type that the upper half of a packet's first byte stands for.
pub open spec fn packet_type_of(byte1: u8) -> Result<PacketType, MqttError> {
    match byte1 / 16 {
        1 => Ok(PacketType::Connect),
        2 => Ok(PacketType::ConnAck),
        3 => Ok(PacketType::Publish),
        4 => Ok(PacketType::PubAck),
        5 => Ok(PacketType::PubRec),
        6 => Ok(PacketType::PubRel),
        7 => Ok(PacketType::PubComp),
        8 => Ok(PacketType::Subscribe),
        9 => Ok(PacketType::SubAck),
        10 => Ok(PacketType::Unsubscribe),
        11 => Ok(PacketType::UnsubAck),
        12 => Ok(PacketType::PingReq),
        13 => Ok(PacketType::PingResp),
        14 => Ok(PacketType::Disconnect),
        num => Err(MqttError::InvalidPacketType(num)),
    }
}

/// The packet type that a packet's first byte gives.
pub fn packet_type(byte1: u8) -> (r: Result<PacketType, MqttError>)
    ensures
        r == packet_type_of(byte1),
{
    assert(byte1 >> 4 == byte1 / 16) by (bit_vector);
    let num: u8 = byte1 >> 4;
    match num {
        1 => Ok(PacketType::Connect),
        2 => Ok(PacketType::ConnAck),
        3 => Ok(PacketType::Publish),
        4 => Ok(PacketType::PubAck),
        5 => Ok(PacketType::PubRec),
        6 => Ok(PacketType::PubRel),
        7 => Ok(PacketType::PubComp),
        8 => Ok(PacketType::Subscribe),
        9 => Ok(PacketType::SubAck),
        10 => Ok(PacketType::Unsubscribe),
        11 => Ok(PacketType::UnsubAck),
        12 => Ok(PacketType::PingReq),
        13 => Ok(PacketType::PingResp),
        14 => Ok(PacketType::Disconnect),
        _ => Err(MqttError::InvalidPacketType(num)),
    }
}

/// The quality of service that a number stands for.
pub open spec fn qos_of(num: u8) -> Result<QoS, MqttError> {
    match num {
        0 => Ok(QoS::AtMostOnce),
        1 => Ok(QoS::AtLeastOnce),
        2 => Ok(QoS::ExactlyOnce),
        _ => Err(MqttError::InvalidQoS(num)),
    }
}

/// `mqttbytes::qos` maps 0, 1 and 2 to the three qualities of service and refuses every other
/// number with an error that holds it.
#[verifier::external_body]
fn qos(num: u8) -> (r: Result<QoS, MqttError>)
    ensures
        r == qos_of(num),
{
    match mqttbytes::qos(num) {
        Ok(mqttbytes::QoS::AtMostOnce) => Ok(QoS::AtMostOnce),
        Ok(mqttbytes::QoS::AtLeastOnce) => Ok(QoS::AtLeastOnce),
        Ok(mqttbytes::QoS::ExactlyOnce) => Ok(QoS::ExactlyOnce),
        Err(mqttbytes::Error::InvalidQoS(n)) => Err(MqttError::InvalidQoS(n)),
        Err(e) => Err(MqttError::Content(e)),
    }
}

/// `std::str::from_utf8` accepts the bytes that are valid UTF-8, and no others.
#[verifier::external_body]
fn is_utf8(bytes: &[u8]) -> (r: bool)
    ensures
        r == valid_utf8(bytes@),
{
    std::str::from_utf8(bytes).is_ok()
}

/// The number that the two bytes at `i` stand for, the more significant one first.
pub open spec fn be16_at(s: Seq<u8>, i: int) -> int {
    s[i] * 256 + s[i + 1]
}

/// The fixed header at the start of `s`: its own length and the length of what remains of the
/// packet behind it.
pub open spec fn header_of(s: Seq<u8>) -> Result<(int, int), MqttError> {
    if s.len() < 2 {
        Err(MqttError::InsufficientBytes((2 - s.len()) as usize))
    } else {
        match length_of(s.skip(1)) {
            Ok((len_len, len)) => Ok((1 + len_len, len)),
            Err(e) => Err(e),
        }
    }
}

/// What a publish stream can bring.
#[derive(Debug)]
pub enum MQTTRead {
    /// A PUBLISH packet, whole.
    Publish(Bytes),
    /// The end of the connection.
    Disconnect,
}

/// An `MQTTRead`, with the packet as its bytes.
pub enum MQTTReadView {
    Publish(Seq<u8>),
    Disconnect,
}

impl View for MQTTRead {
    type V = MQTTReadView;

    open spec fn view(&self) -> MQTTReadView {
        match *self {
            MQTTRead::Publish(packet) => MQTTReadView::Publish(held(packet)),
            MQTTRead::Disconnect => MQTTReadView::Disconnect,
        }
    }
}

impl Clone for MQTTRead {
    fn clone(&self) -> (r: MQTTRead)
        ensures
            r@ == self@,
    {
        match self {
            MQTTRead::Publish(packet) => MQTTRead::Publish(packet.clone()),
            MQTTRead::Disconnect => MQTTRead::Disconnect,
        }
    }
}

/// The bytes of the topic of a PUBLISH packet: they stand behind their length, which stands behind
/// the fixed header.
pub open spec fn topic_bytes(packet: Seq<u8>, header_len: int) -> Seq<u8> {
    packet.subrange(header_len + 2, header_len + 2 + be16_at(packet, header_len))
}

/// Why a whole packet has no topic, if it has none.
pub open spec fn topic_failure(packet: Seq<u8>, header_len: int) -> Option<MqttError> {
    if packet.len() == header_len {
        Some(MqttError::PayloadRequired)
    } else if packet.len() < header_len + 2 {
        Some(MqttError::MalformedPacket)
    } else if packet.len() < header_len + 2 + be16_at(packet, header_len) {
        Some(MqttError::BoundaryCrossed(be16_at(packet, header_len) as usize))
    } else if !valid_utf8(topic_bytes(packet, header_len)) {
        Some(MqttError::TopicNotUtf8)
    } else {
        None
    }
}

/// What a whole packet is on a publish stream.
pub open spec fn publish_content(packet: Seq<u8>, header_len: int) -> Result<
    MQTTReadView,
    MqttError,
> {
    match packet_type_of(packet[0]) {
        Err(e) => Err(e),
        Ok(PacketType::Disconnect) => Ok(MQTTReadView::Disconnect),
        Ok(_) => match qos_of(packet[0] / 2 % 4) {
            Err(e) => Err(e),
            Ok(QoS::AtMostOnce) => match topic_failure(packet, header_len) {
                Some(e) => Err(e),
                None => Ok(MQTTReadView::Publish(packet)),
            },
            Ok(_) => Err(MqttError::InvalidQoS(0)),
        },
    }
}

/// What reading one packet off the start of a publish stream gives. A packet that is not there as a
/// whole is waited for.
pub open spec fn publish_read(s: Seq<u8>) -> Result<MQTTReadView, MqttError> {
    match header_of(s) {
        Err(e) => Err(e),
        Ok((header_len, len)) => if s.len() < header_len + len {
            Err(MqttError::InsufficientBytes((header_len + len - s.len()) as usize))
        } else {
            publish_content(s.take(header_len + len), header_len)
        },
    }
}

/// What reading one packet off the start of a publish stream leaves: the bytes behind the packet,
/// or all of them where there is no whole packet.
pub open spec fn publish_rest(s: Seq<u8>) -> Seq<u8> {
    match header_of(s) {
        Err(_) => s,
        Ok((header_len, len)) => if s.len() < header_len + len {
            s
        } else {
            s.skip(header_len + len)
        },
    }
}

/// Reads the fixed header at the start of `stream`.
fn fixed_header(stream: &[u8]) -> (r: Result<(usize, usize), MqttError>)
    ensures
        match (r, header_of(stream@)) {
            (Ok((header_len, len)), Ok((h, n))) => header_len == h && len == n,
            (Err(e), Err(expected)) => e == expected,
            _ => false,
        },
        r matches Ok((header_len, len)) ==> 2 <= header_len <= 5 && header_len <= stream@.len()
            && len < 268_435_456,
{
    let stream_len: usize = stream.len();
    if stream_len < 2 {
        return Err(MqttError::InsufficientBytes(2 - stream_len));
    }
    let rest = vstd::slice::slice_subrange(stream, 1, stream_len);
    assert(rest@ == stream@.skip(1));
    match length(rest) {
        Ok((len_len, len)) => Ok((len_len + 1, len)),
        Err(e) => Err(e),
    }
}

/// The lower half of a packet's first byte holds the quality of service in its middle two bits.
proof fn lemma_qos_bits(byte1: u8)
    ensures
        (byte1 & 0b0110) >> 1 == byte1 / 2 % 4,
{
    assert((byte1 & 0b0110) >> 1 == byte1 / 2 % 4) by (bit_vector);
}

/// Looks for the topic of a whole packet.
fn topic_of(packet: &[u8], header_len: usize) -> (r: Result<(), MqttError>)
    requires
        2 <= header_len <= packet@.len(),
    ensures
        match topic_failure(packet@, header_len as int) {
            Some(e) => r == Err::<(), MqttError>(e),
            None => r == Ok::<(), MqttError>(()),
        },
{
    let len: usize = packet.len() - header_len;
    if len == 0 {
        return Err(MqttError::PayloadRequired);
    }
    if len < 2 {
        return Err(MqttError::MalformedPacket);
    }
    let topic_len: usize = packet[header_len] as usize * 256 + packet[header_len + 1] as usize;
    if topic_len > len - 2 {
        return Err(MqttError::BoundaryCrossed(topic_len));
    }
    let topic = vstd::slice::slice_subrange(packet, header_len + 2, header_len + 2 + topic_len);
    assert(topic@ == topic_bytes(packet@, header_len as int));
    if is_utf8(topic) {
        Ok(())
    } else {
        Err(MqttError::TopicNotUtf8)
    }
}

/// Looks at the packet at the start of the bytes: how many bytes reading it takes off, and whether
/// it ends the connection.
fn look(bytes: &[u8]) -> (r: (usize, Result<bool, MqttError>))
    ensures
        r.0 <= bytes@.len(),
        publish_rest(bytes@) == bytes@.skip(r.0 as int),
        match (r.1, publish_read(bytes@)) {
            (Ok(disconnect), Ok(MQTTReadView::Disconnect)) => disconnect,
            (Ok(disconnect), Ok(MQTTReadView::Publish(packet))) => !disconnect && packet
                == bytes@.take(r.0 as int),
            (Err(e), Err(expected)) => e == expected,
            _ => false,
        },
{
    assert(bytes@.skip(0) == bytes@);
    let (header_len, len) = match fixed_header(bytes) {
        Ok(header) => header,
        Err(e) => return (0, Err(e)),
    };
    let packet_len: usize = header_len + len;
    if bytes.len() < packet_len {
        return (0, Err(MqttError::InsufficientBytes(packet_len - bytes.len())));
    }
    let byte1: u8 = bytes[0];

    match packet_type(byte1) {
        Err(e) => return (packet_len, Err(e)),
        Ok(PacketType::Disconnect) => return (packet_len, Ok(true)),
        Ok(_) => {},
    }

    proof {
        lemma_qos_bits(byte1);
    }
    match qos((byte1 & 0b0110) >> 1) {
        Err(e) => return (packet_len, Err(e)),
        Ok(QoS::AtMostOnce) => {},
        Ok(_) => return (packet_len, Err(MqttError::InvalidQoS(0))),
    }

    let packet = vstd::slice::slice_subrange(bytes, 0, packet_len);
    assert(packet@ == bytes@.take(packet_len as int));
    match topic_of(packet, header_len) {
        Ok(()) => (packet_len, Ok(false)),
        Err(e) => (packet_len, Err(e)),
    }
}

impl MQTTRead {
    /// Reads one packet off the start of the buffer. Where it is not there as a whole, it is left
    /// there; where it is not a packet that a publish stream may bring, it is gone from the buffer
    /// all the same.
    pub fn read(stream: &mut BytesMut) -> (r: Result<MQTTRead, MqttError>)
        ensures
            match (r, publish_read(buffered(*old(stream)))) {
                (Ok(read), Ok(expected)) => read@ == expected,
                (Err(e), Err(expected)) => e == expected,
                _ => false,
            },
            buffered(*final(stream)) == publish_rest(buffered(*old(stream))),
    {
        let (packet_len, looked) = look(buffer_slice(stream));
        let packet = stream.split_to(packet_len).freeze();
        match looked {
            Ok(true) => Ok(MQTTRead::Disconnect),
            Ok(false) => Ok(MQTTRead::Publish(packet)),
            Err(e) => Err(e),
        }
    }
}

} // verus!
