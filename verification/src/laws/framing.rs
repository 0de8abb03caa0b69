//! Packets that are written are read back.

use vstd::prelude::*;
use vstd::utf8::{encode_utf8, valid_utf8};

use crate::error::MqttError;
use crate::packet::{
    be16, connack_body, connack_packet, connect_body, connect_packet, disconnect_packet,
    filters_to_end, frame, length_bytes, longest, packet_read, packet_rest, packet_content,
    publish_body, publish_packet, string_at, string_bytes, string_end, string_value,
    strings_to_end, suback_body, suback_packet, subscribe_body, subscribe_packet,
    unsubscribe_packet, ConnectReturnCode, PacketView, MAX_PACKET_SIZE,
};
use crate::protocol::{
    be16_at, header_of, length_ends, length_of, length_value, publish_read, publish_rest,
    topic_bytes, MQTTReadView, QoS,
};

verus! {

/// A remaining length that is written is read back, whatever follows it.
pub proof fn length_round_trip(n: int, rest: Seq<u8>)
    requires
        0 <= n <= longest(),
    ensures
        length_of(length_bytes(n) + rest) == Ok::<(int, int), MqttError>(
            (length_bytes(n).len() as int, n),
        ),
        1 <= length_bytes(n).len() <= 4,
{
    let s = length_bytes(n) + rest;
    let k = length_bytes(n).len() as int;
    reveal_with_fuel(length_value, 5);
    assert(forall|i: int| 0 <= i < k ==> s[i] == length_bytes(n)[i]);
    assert(n < 128 ==> length_bytes(n).len() == 1 && s[0] == n);
    assert(length_ends(s, k));
    if k == 1 {
    } else if k == 2 {
        assert(s[0] >= 128);
    } else if k == 3 {
        assert(s[0] >= 128 && s[1] >= 128);
    } else {
        assert(s[0] >= 128 && s[1] >= 128 && s[2] >= 128);
    }
}

/// The fixed header of a packet that is written is read back, whatever follows the packet: it says
/// where the packet ends.
pub proof fn header_round_trip(byte1: u8, body: Seq<u8>, rest: Seq<u8>)
    requires
        body.len() <= longest(),
    ensures
        header_of(frame(byte1, body) + rest) == Ok::<(int, int), MqttError>(
            (1 + length_bytes(body.len() as int).len() as int, body.len() as int),
        ),
        frame(byte1, body).len() == 1 + length_bytes(body.len() as int).len() + body.len(),
        2 <= 1 + length_bytes(body.len() as int).len() <= 5,
{
    let s = frame(byte1, body) + rest;
    length_round_trip(body.len() as int, body + rest);
    assert(s.skip(1) == length_bytes(body.len() as int) + (body + rest));
}

/// A string that is written into a packet is read back, where it is not too long for its length to
/// be written.
pub proof fn string_round_trip(before: Seq<u8>, string: Seq<char>, behind: Seq<u8>)
    requires
        encode_utf8(string).len() <= 65535,
    ensures
        ({
            let body = before + string_bytes(string) + behind;
            let at = before.len() as int;
            &&& string_at(body, at)
            &&& string_value(body, at) == string
            &&& string_end(body, at) == at + 2 + encode_utf8(string).len()
        }),
{
    let n = encode_utf8(string).len() as int;
    let body = before + string_bytes(string) + behind;
    let at = before.len() as int;
    assert(body[at] == be16(n)[0] && body[at + 1] == be16(n)[1]);
    assert(be16_at(body, at) == n);
    assert(body.subrange(at + 2, at + 2 + n) == encode_utf8(string));
    vstd::utf8::encode_utf8_valid_utf8(string);
    vstd::utf8::encode_utf8_decode_utf8(string);
}

/// A packet that is taken is read for what it is, and is the only thing that is taken off the
/// stream.
pub proof fn content_is_read(byte1: u8, body: Seq<u8>, rest: Seq<u8>, max_size: int)
    requires
        body.len() <= longest(),
        body.len() <= max_size,
        packet_content(byte1, body) is Some,
    ensures
        packet_read(frame(byte1, body) + rest, max_size) == Ok::<PacketView, MqttError>(
            packet_content(byte1, body)->0,
        ),
        packet_rest(frame(byte1, body) + rest, max_size) == rest,
{
    let s = frame(byte1, body) + rest;
    header_round_trip(byte1, body, rest);
    let h = 1 + length_bytes(body.len() as int).len() as int;
    assert(s.subrange(h, h + body.len()) == body);
    assert(s.skip(h + body.len()) == rest);
    assert(s[0] == byte1);
}

/// The CONNECT packet of a client is read back as one.
pub proof fn connect_round_trip(id: Seq<char>, rest: Seq<u8>)
    requires
        encode_utf8(id).len() <= 65535,
    ensures
        packet_read(connect_packet(id) + rest, MAX_PACKET_SIZE as int) == Ok::<
            PacketView,
            MqttError,
        >(PacketView::Connect),
        packet_rest(connect_packet(id) + rest, MAX_PACKET_SIZE as int) == rest,
{
    let before = seq![0u8, 4, 77, 81, 84, 84, 4, 2, 0, 10];
    let body = connect_body(id);
    string_round_trip(before, id, Seq::empty());
    assert(before + string_bytes(id) + Seq::<u8>::empty() == body);
    assert(body.take(6) == seq![0u8, 4, 77, 81, 84, 84]);
    assert(body[6] == 4 && body[7] == 2);
    content_is_read(0x10, body, rest, MAX_PACKET_SIZE as int);
}

/// The CONNACK packet of a server is read back as one.
pub proof fn connack_round_trip(rest: Seq<u8>)
    ensures
        packet_read(connack_packet() + rest, MAX_PACKET_SIZE as int) == Ok::<PacketView, MqttError>(
            PacketView::ConnAck,
        ),
        packet_rest(connack_packet() + rest, MAX_PACKET_SIZE as int) == rest,
{
    content_is_read(
        0x20,
        connack_body(ConnectReturnCode::Success, false),
        rest,
        MAX_PACKET_SIZE as int,
    );
}

/// A PUBLISH packet is read back with its topic and its payload, where it is not over the limit of
/// a reader.
pub proof fn publish_round_trip(topic: Seq<char>, payload: Seq<u8>, rest: Seq<u8>)
    requires
        encode_utf8(topic).len() <= 65535,
        publish_body(topic, payload).len() <= MAX_PACKET_SIZE,
    ensures
        packet_read(publish_packet(topic, payload) + rest, MAX_PACKET_SIZE as int) == Ok::<
            PacketView,
            MqttError,
        >(PacketView::Publish { topic, payload }),
        packet_rest(publish_packet(topic, payload) + rest, MAX_PACKET_SIZE as int) == rest,
{
    let body = publish_body(topic, payload);
    string_round_trip(Seq::empty(), topic, payload);
    assert(Seq::<u8>::empty() + string_bytes(topic) + payload == body);
    assert(body.skip(string_end(body, 0)) == payload);
    content_is_read(0x30, body, rest, MAX_PACKET_SIZE as int);
}

/// A SUBSCRIBE packet is read back with its topic.
pub proof fn subscribe_round_trip(topic: Seq<char>, rest: Seq<u8>)
    requires
        encode_utf8(topic).len() <= 65535,
    ensures
        packet_read(subscribe_packet(topic) + rest, MAX_PACKET_SIZE as int) == Ok::<
            PacketView,
            MqttError,
        >(PacketView::Subscribe { filters: seq![topic] }),
        packet_rest(subscribe_packet(topic) + rest, MAX_PACKET_SIZE as int) == rest,
{
    let body = subscribe_body(topic, QoS::AtMostOnce);
    string_round_trip(seq![0u8, 0u8], topic, seq![0u8]);
    reveal_with_fuel(filters_to_end, 2);
    assert(string_end(body, 2) + 1 == body.len());
    assert(filters_to_end(body, body.len() as int) == Some(Seq::<Seq<char>>::empty()));
    assert(seq![topic] + Seq::<Seq<char>>::empty() == seq![topic]);
    content_is_read(0x82, body, rest, MAX_PACKET_SIZE as int);
}

/// The topics of a SUBSCRIBE packet as it is written: each with a quality of service behind it.
pub open spec fn filter_bytes(topics: Seq<Seq<char>>, qos: Seq<u8>) -> Seq<u8>
    decreases topics.len(),
{
    if topics.len() == 0 {
        Seq::empty()
    } else {
        string_bytes(topics[0]) + seq![qos[0]] + filter_bytes(topics.drop_first(), qos.drop_first())
    }
}

/// A SUBSCRIBE packet is read with all its topics, in order, however many they are.
pub proof fn all_topics_are_read(before: Seq<u8>, topics: Seq<Seq<char>>, qos: Seq<u8>)
    requires
        topics.len() == qos.len(),
        forall|i: int|
            0 <= i < topics.len() ==> encode_utf8(#[trigger] topics[i]).len() <= 65535,
        forall|i: int| 0 <= i < qos.len() ==> #[trigger] qos[i] <= 2,
    ensures
        filters_to_end(before + filter_bytes(topics, qos), before.len() as int) == Some(topics),
        before.len() == 2 ==> packet_content(0x82, before + filter_bytes(topics, qos)) == Some(
            PacketView::Subscribe { filters: topics },
        ),
    decreases topics.len(),
{
    let body = before + filter_bytes(topics, qos);
    let at = before.len() as int;
    if topics.len() == 0 {
        assert(body =~= before);
        assert(topics =~= Seq::<Seq<char>>::empty());
    } else {
        let behind = seq![qos[0]] + filter_bytes(topics.drop_first(), qos.drop_first());
        string_round_trip(before, topics[0], behind);
        assert(body =~= before + string_bytes(topics[0]) + behind);
        let next = before + string_bytes(topics[0]) + seq![qos[0]];
        assert forall|i: int| 0 <= i < topics.drop_first().len() implies encode_utf8(
            #[trigger] topics.drop_first()[i],
        ).len() <= 65535 by {
            assert(topics.drop_first()[i] == topics[i + 1]);
        }
        assert forall|i: int| 0 <= i < qos.drop_first().len() implies #[trigger] qos.drop_first()[i]
            <= 2 by {
            assert(qos.drop_first()[i] == qos[i + 1]);
        }
        all_topics_are_read(next, topics.drop_first(), qos.drop_first());
        assert(body =~= next + filter_bytes(topics.drop_first(), qos.drop_first()));
        assert(string_end(body, at) + 1 == next.len());
        assert(body[string_end(body, at)] == qos[0]);
        assert(seq![topics[0]] + topics.drop_first() =~= topics);
    }
}

/// An UNSUBSCRIBE packet is read as one: it ends the subscribe stream that it comes in on.
pub proof fn unsubscribe_is_read(pkid: u16, topic: Seq<char>, rest: Seq<u8>)
    requires
        encode_utf8(topic).len() <= 65535,
    ensures
        packet_read(unsubscribe_packet(pkid, topic) + rest, MAX_PACKET_SIZE as int) == Ok::<
            PacketView,
            MqttError,
        >(PacketView::Unsubscribe),
        packet_rest(unsubscribe_packet(pkid, topic) + rest, MAX_PACKET_SIZE as int) == rest,
{
    let body = be16(pkid as int) + string_bytes(topic);
    string_round_trip(be16(pkid as int), topic, Seq::empty());
    assert(be16(pkid as int) + string_bytes(topic) + Seq::<u8>::empty() == body);
    reveal_with_fuel(strings_to_end, 2);
    content_is_read(0xA2, body, rest, MAX_PACKET_SIZE as int);
}

/// The SUBACK packet of a server is read back as one.
pub proof fn suback_round_trip(rest: Seq<u8>)
    ensures
        packet_read(suback_packet() + rest, MAX_PACKET_SIZE as int) == Ok::<PacketView, MqttError>(
            PacketView::SubAck,
        ),
        packet_rest(suback_packet() + rest, MAX_PACKET_SIZE as int) == rest,
{
    content_is_read(0x90, suback_body(0, QoS::AtMostOnce), rest, MAX_PACKET_SIZE as int);
}

/// The DISCONNECT packet is read back as one, by both readers.
pub proof fn disconnect_round_trip(rest: Seq<u8>)
    ensures
        packet_read(disconnect_packet() + rest, MAX_PACKET_SIZE as int) == Ok::<
            PacketView,
            MqttError,
        >(PacketView::Disconnect),
        packet_rest(disconnect_packet() + rest, MAX_PACKET_SIZE as int) == rest,
        publish_read(disconnect_packet() + rest) == Ok::<MQTTReadView, MqttError>(
            MQTTReadView::Disconnect,
        ),
        publish_rest(disconnect_packet() + rest) == rest,
{
    content_is_read(0xE0, Seq::empty(), rest, MAX_PACKET_SIZE as int);
    header_round_trip(0xE0, Seq::empty(), rest);
    let s = disconnect_packet() + rest;
    assert(s[0] == 0xE0);
    assert(s.take(2)[0] == 0xE0);
}

/// What a PUBLISH packet says that its topic is, is UTF-8: its length can be written, or what is
/// written of it ends where a character does.
pub open spec fn topic_written(topic: Seq<char>) -> bool {
    ||| encode_utf8(topic).len() <= 65535
    ||| valid_utf8(encode_utf8(topic).take(encode_utf8(topic).len() as int % 65536))
}

/// What two bytes say of a number is what is left of it below 65536.
proof fn lemma_be16(n: int)
    requires
        0 <= n,
    ensures
        be16(n)[0] * 256 + be16(n)[1] == n % 65536,
        0 <= n % 65536 <= n,
{
    let q = n / 65536;
    let r = n % 65536;
    assert(n == 65536 * q + r);
    assert(n / 256 == 256 * q + r / 256);
    assert((256 * q + r / 256) % 256 == r / 256);
    assert(n % 256 == r % 256);
}

/// A PUBLISH packet is taken off a publish stream as the bytes that it was written as, whatever
/// follows it.
pub proof fn publish_stream_round_trip(topic: Seq<char>, payload: Seq<u8>, rest: Seq<u8>)
    requires
        publish_body(topic, payload).len() <= longest(),
        topic_written(topic),
    ensures
        publish_read(publish_packet(topic, payload) + rest) == Ok::<MQTTReadView, MqttError>(
            MQTTReadView::Publish(publish_packet(topic, payload)),
        ),
        publish_rest(publish_packet(topic, payload) + rest) == rest,
{
    let packet = publish_packet(topic, payload);
    let body = publish_body(topic, payload);
    let s = packet + rest;
    let h = 1 + length_bytes(body.len() as int).len() as int;
    let n = encode_utf8(topic).len() as int;
    lemma_be16(n);
    header_round_trip(0x30, body, rest);
    assert(s.take(h + body.len()) == packet);
    assert(s.skip(h + body.len()) == rest);
    assert(s[0] == 0x30 && packet[0] == 0x30);
    assert(packet[h] == be16(n)[0] && packet[h + 1] == be16(n)[1]);
    assert(be16_at(packet, h) == n % 65536);
    assert(topic_bytes(packet, h) == encode_utf8(topic).take(n % 65536));
    if n <= 65535 {
        assert(n % 65536 == n);
        assert(encode_utf8(topic).take(n) == encode_utf8(topic));
        vstd::utf8::encode_utf8_valid_utf8(topic);
    }
}

} // verus!
