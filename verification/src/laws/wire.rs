//! The bytes of packets, one by one.

use vstd::prelude::*;
use vstd::utf8::encode_utf8;

use crate::error::MqttError;
use crate::laws::framing::{length_round_trip, string_round_trip};
use crate::packet::{
    be16, connack_packet, connect_body, connect_packet, disconnect_packet, frame, length_bytes,
    longest, publish_body, publish_packet, string_at, string_bytes, string_end, string_value,
    suback_packet, subscribe_body, subscribe_packet, MAX_PACKET_SIZE,
};
use crate::protocol::{
    be16_at, header_of, length_of, length_value, packet_type_of, PacketType, QoS,
};
use crate::registry::CHANNEL_CAPACITY;

verus! {

/// The limits: a packet may announce up to a mebibyte to a reader, the length of what is written
/// has to fit into four times seven bits, and a channel holds 1024 messages.
pub proof fn limits()
    ensures
        MAX_PACKET_SIZE == 1024 * 1024,
        longest() == 128 * 128 * 128 * 128 - 1,
        CHANNEL_CAPACITY == 1024,
{
}

/// Two bytes stand for a number, wherever they stand: 256 times the first, and the second.
pub proof fn two_bytes(before: Seq<u8>, high: u8, low: u8, behind: Seq<u8>)
    ensures
        be16_at(before + seq![high, low] + behind, before.len() as int) == 256 * high + low,
{
    let s = before + seq![high, low] + behind;
    let at = before.len() as int;
    assert(s[at] == high && s[at + 1] == low);
}

/// A number below 65536 is written as the two bytes that stand for it.
pub proof fn two_bytes_written(n: int)
    requires
        0 <= n < 65536,
    ensures
        be16(n).len() == 2,
        256 * be16(n)[0] + be16(n)[1] == n,
{
}

/// A remaining length is made of up to four bytes, of which all but the last are 128 or more: each
/// counts 128 times as much as the one before it. One that does not end is wrong after four bytes,
/// and is waited for before that.
pub proof fn length_by_bytes(a: u8, b: u8, c: u8, d: u8, rest: Seq<u8>)
    ensures
        a < 128 ==> length_of(seq![a] + rest) == Ok::<(int, int), MqttError>((1, a as int)),
        a >= 128 && b < 128 ==> length_of(seq![a, b] + rest) == Ok::<(int, int), MqttError>(
            (2, (a - 128) + 128 * b),
        ),
        a >= 128 && b >= 128 && c < 128 ==> length_of(seq![a, b, c] + rest) == Ok::<
            (int, int),
            MqttError,
        >((3, (a - 128) + 128 * (b - 128) + 16384 * c)),
        a >= 128 && b >= 128 && c >= 128 && d < 128 ==> length_of(seq![a, b, c, d] + rest) == Ok::<
            (int, int),
            MqttError,
        >((4, (a - 128) + 128 * (b - 128) + 16384 * (c - 128) + 2097152 * d)),
        a >= 128 && b >= 128 && c >= 128 && d >= 128 ==> length_of(seq![a, b, c, d] + rest)
            == Err::<(int, int), MqttError>(MqttError::MalformedRemainingLength),
        length_of(Seq::empty()) == Err::<(int, int), MqttError>(MqttError::InsufficientBytes(1)),
        a >= 128 ==> length_of(seq![a]) == Err::<(int, int), MqttError>(
            MqttError::InsufficientBytes(1),
        ),
        a >= 128 && b >= 128 ==> length_of(seq![a, b]) == Err::<(int, int), MqttError>(
            MqttError::InsufficientBytes(1),
        ),
        a >= 128 && b >= 128 && c >= 128 ==> length_of(seq![a, b, c]) == Err::<
            (int, int),
            MqttError,
        >(MqttError::InsufficientBytes(1)),
{
    lemma_length_of_some(seq![a] + rest);
    lemma_length_of_some(seq![a, b] + rest);
    lemma_length_of_some(seq![a, b, c] + rest);
    lemma_length_of_some(seq![a, b, c, d] + rest);
    lemma_length_of_some(seq![a]);
    lemma_length_of_some(seq![a, b]);
    lemma_length_of_some(seq![a, b, c]);
}

/// The same of a sequence of bytes, by the first of them that is below 128.
proof fn lemma_length_of_some(s: Seq<u8>)
    requires
        s.len() >= 1,
    ensures
        length_of(s) == if s[0] < 128 {
            Ok::<(int, int), MqttError>((1, s[0] as int))
        } else if s.len() == 1 {
            Err(MqttError::InsufficientBytes(1))
        } else if s[1] < 128 {
            Ok((2, (s[0] - 128) + 128 * s[1]))
        } else if s.len() == 2 {
            Err(MqttError::InsufficientBytes(1))
        } else if s[2] < 128 {
            Ok((3, (s[0] - 128) + 128 * (s[1] - 128) + 16384 * s[2]))
        } else if s.len() == 3 {
            Err(MqttError::InsufficientBytes(1))
        } else if s[3] < 128 {
            Ok(
                (
                    4,
                    (s[0] - 128) + 128 * (s[1] - 128) + 16384 * (s[2] - 128) + 2097152 * s[3],
                ),
            )
        } else {
            Err(MqttError::MalformedRemainingLength)
        },
{
    reveal_with_fuel(length_value, 5);
}

/// A fixed header is one byte and a remaining length; less than two bytes are waited for.
pub proof fn header_by_bytes(byte1: u8, s: Seq<u8>)
    ensures
        header_of(Seq::empty()) == Err::<(int, int), MqttError>(MqttError::InsufficientBytes(2)),
        header_of(seq![byte1]) == Err::<(int, int), MqttError>(MqttError::InsufficientBytes(1)),
        s.len() >= 1 ==> match length_of(s) {
            Ok((len_len, len)) => header_of(seq![byte1] + s) == Ok::<(int, int), MqttError>(
                (1 + len_len, len),
            ),
            Err(e) => header_of(seq![byte1] + s) == Err::<(int, int), MqttError>(e),
        },
{
    assert((seq![byte1] + s).skip(1) == s);
}

/// A remaining length is written in as few bytes as it takes.
pub proof fn length_is_short(n: int)
    requires
        0 <= n <= longest(),
    ensures
        length_bytes(n).len() == if n < 128 {
            1int
        } else if n < 128 * 128 {
            2
        } else if n < 128 * 128 * 128 {
            3
        } else {
            4
        },
        length_of(length_bytes(n)) == Ok::<(int, int), MqttError>(
            (length_bytes(n).len() as int, n),
        ),
{
    length_round_trip(n, Seq::empty());
    assert(length_bytes(n) + Seq::<u8>::empty() == length_bytes(n));
}

/// The upper half of the first byte of a packet is the number of its type: 1 to 14, in this order.
/// The lower half says nothing of it.
pub proof fn type_by_number(number: u8, flags: u8, other: u8)
    requires
        number < 16,
        flags < 16,
        other < 16,
    ensures
        ({
            let t = packet_type_of((16 * number + flags) as u8);
            &&& (number == 0 || number == 15) ==> t == Err::<PacketType, MqttError>(
                MqttError::InvalidPacketType(number),
            )
            &&& 1 <= number <= 14 ==> t is Ok
            &&& t == packet_type_of((16 * number + other) as u8)
            &&& number == 1 <==> t == Ok::<PacketType, MqttError>(PacketType::Connect)
            &&& number == 2 <==> t == Ok::<PacketType, MqttError>(PacketType::ConnAck)
            &&& number == 3 <==> t == Ok::<PacketType, MqttError>(PacketType::Publish)
            &&& number == 4 <==> t == Ok::<PacketType, MqttError>(PacketType::PubAck)
            &&& number == 5 <==> t == Ok::<PacketType, MqttError>(PacketType::PubRec)
            &&& number == 6 <==> t == Ok::<PacketType, MqttError>(PacketType::PubRel)
            &&& number == 7 <==> t == Ok::<PacketType, MqttError>(PacketType::PubComp)
            &&& number == 8 <==> t == Ok::<PacketType, MqttError>(PacketType::Subscribe)
            &&& number == 9 <==> t == Ok::<PacketType, MqttError>(PacketType::SubAck)
            &&& number == 10 <==> t == Ok::<PacketType, MqttError>(PacketType::Unsubscribe)
            &&& number == 11 <==> t == Ok::<PacketType, MqttError>(PacketType::UnsubAck)
            &&& number == 12 <==> t == Ok::<PacketType, MqttError>(PacketType::PingReq)
            &&& number == 13 <==> t == Ok::<PacketType, MqttError>(PacketType::PingResp)
            &&& number == 14 <==> t == Ok::<PacketType, MqttError>(PacketType::Disconnect)
        }),
{
    let a = (16 * number + flags) as u8;
    let b = (16 * number + other) as u8;
    assert(a / 16 == number && b / 16 == number);
}

/// A packet is its first byte, the length of what remains of it, and what remains.
pub proof fn frame_by_bytes(byte1: u8, body: Seq<u8>)
    requires
        body.len() <= longest(),
    ensures
        ({
            let packet = frame(byte1, body);
            let header = packet.len() - body.len();
            &&& packet[0] == byte1
            &&& length_of(packet.skip(1)) == Ok::<(int, int), MqttError>(
                (header - 1, body.len() as int),
            )
            &&& packet.skip(header) == body
        }),
{
    let packet = frame(byte1, body);
    let n = body.len() as int;
    length_round_trip(n, body);
    assert(packet.skip(1) == length_bytes(n) + body);
    assert(packet.skip(packet.len() - body.len()) == body);
}

/// The CONNECT packet of a client names that client: behind its fixed header stand the protocol and
/// its version, the flag for a clean session and a time of ten seconds, and then the length of the
/// name and the name, as it is. It is the name that is read back from there.
pub proof fn connect_names_client(id: Seq<char>)
    requires
        encode_utf8(id).len() <= 65535,
    ensures
        ({
            let n = encode_utf8(id).len() as int;
            let packet = connect_packet(id);
            let header = packet.len() - (12 + n);
            let body = packet.skip(header);
            &&& packet[0] == 0x10
            &&& length_of(packet.skip(1)) == Ok::<(int, int), MqttError>((header - 1, 12 + n))
            &&& body.len() == 12 + n
            &&& body.take(10) == seq![0u8, 4, 77, 81, 84, 84, 4, 2, 0, 10]
            &&& 256 * body[10] + body[11] == n
            &&& body.skip(12) == encode_utf8(id)
            &&& string_at(body, 10)
            &&& string_value(body, 10) == id
            &&& string_end(body, 10) == body.len()
            &&& connect_body(id).len() == 12 + n
        }),
{
    let n = encode_utf8(id).len() as int;
    let before = seq![0u8, 4, 77, 81, 84, 84, 4, 2, 0, 10];
    let body = before + string_bytes(id);
    two_bytes_written(n);
    assert(connect_packet(id) == frame(0x10, body));
    frame_by_bytes(0x10, body);
    string_round_trip(before, id, Seq::empty());
    assert(before + string_bytes(id) + Seq::<u8>::empty() == body);
    assert(body.take(10) == before);
    assert(body.skip(12) == encode_utf8(id));
}

/// Clients with different names open their connections with different packets.
pub proof fn clients_are_told_apart(id: Seq<char>, other: Seq<char>)
    requires
        encode_utf8(id).len() <= 65535,
        encode_utf8(other).len() <= 65535,
        id != other,
    ensures
        connect_packet(id) != connect_packet(other),
{
    connect_names_client(id);
    connect_names_client(other);
    if connect_packet(id) == connect_packet(other) {
        let n = encode_utf8(id).len() as int;
        let m = encode_utf8(other).len() as int;
        assert(12 + n == 12 + m);
    }
}

/// The SUBSCRIBE packet for a topic asks for that topic and no other, at most once: behind its
/// fixed header stand two bytes for an id, the length of the topic, the topic, and a zero.
pub proof fn subscribe_names_topic(topic: Seq<char>)
    requires
        encode_utf8(topic).len() <= 65535,
    ensures
        ({
            let n = encode_utf8(topic).len() as int;
            let packet = subscribe_packet(topic);
            let header = packet.len() - (5 + n);
            let body = packet.skip(header);
            &&& packet[0] == 0x82
            &&& length_of(packet.skip(1)) == Ok::<(int, int), MqttError>((header - 1, 5 + n))
            &&& body.len() == 5 + n
            &&& body[0] == 0 && body[1] == 0
            &&& 256 * body[2] + body[3] == n
            &&& body.subrange(4, 4 + n) == encode_utf8(topic)
            &&& body[4 + n] == 0
            &&& subscribe_body(topic, QoS::AtMostOnce).len() == 5 + n
        }),
{
    let n = encode_utf8(topic).len() as int;
    let body = seq![0u8, 0u8] + string_bytes(topic) + seq![0u8];
    two_bytes_written(n);
    assert(subscribe_packet(topic) == frame(0x82, body));
    frame_by_bytes(0x82, body);
    assert(body.subrange(4, 4 + n) == encode_utf8(topic));
}

/// A PUBLISH packet holds the topic that it is for and the payload, as they are: behind its fixed
/// header stand the length of the topic, the topic and the payload.
pub proof fn publish_holds_payload(topic: Seq<char>, payload: Seq<u8>)
    requires
        encode_utf8(topic).len() <= 65535,
        2 + encode_utf8(topic).len() + payload.len() <= longest(),
    ensures
        ({
            let n = encode_utf8(topic).len() as int;
            let len = 2 + n + payload.len();
            let packet = publish_packet(topic, payload);
            let header = packet.len() - len;
            let body = packet.skip(header);
            &&& packet[0] == 0x30
            &&& length_of(packet.skip(1)) == Ok::<(int, int), MqttError>((header - 1, len))
            &&& body.len() == len
            &&& 256 * body[0] + body[1] == n
            &&& body.subrange(2, 2 + n) == encode_utf8(topic)
            &&& body.skip(2 + n) == payload
            &&& publish_body(topic, payload).len() == len
        }),
{
    let n = encode_utf8(topic).len() as int;
    let body = string_bytes(topic) + payload;
    two_bytes_written(n);
    assert(publish_packet(topic, payload) == frame(0x30, body));
    frame_by_bytes(0x30, body);
    assert(body.subrange(2, 2 + n) == encode_utf8(topic));
    assert(body.skip(2 + n) == payload);
}

/// How long what remains of a packet is, whatever the length of the strings in it.
pub proof fn packets_are_as_long_as_what_they_hold(string: Seq<char>, payload: Seq<u8>)
    ensures
        connect_body(string).len() == 12 + encode_utf8(string).len(),
        subscribe_body(string, QoS::AtMostOnce).len() == 5 + encode_utf8(string).len(),
        publish_body(string, payload).len() == 2 + encode_utf8(string).len() + payload.len(),
{
}

/// The answers of a server, and the packet that ends a connection, are these bytes: a connection is
/// accepted with no session, a subscription is granted at most once.
pub proof fn answers_by_bytes()
    ensures
        connack_packet() == seq![0x20u8, 2, 0, 0],
        suback_packet() == seq![0x90u8, 3, 0, 0, 0],
        disconnect_packet() == seq![0xE0u8, 0],
{
    assert(connack_packet() =~= seq![0x20u8, 2, 0, 0]);
    assert(suback_packet() =~= seq![0x90u8, 3, 0, 0, 0]);
    assert(disconnect_packet() =~= seq![0xE0u8, 0]);
}

} // verus!
