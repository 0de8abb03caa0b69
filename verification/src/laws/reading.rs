//! What a publish stream takes, by the bytes of a packet.

use bytes::Bytes;
use vstd::prelude::*;
use vstd::utf8::{decode_utf8, valid_utf8};

use crate::buffer::held;
use crate::error::MqttError;
use crate::laws::framing::header_round_trip;
use crate::laws::wire::frame_by_bytes;
use crate::packet::{
    first_packet, frame, length_bytes, packet_content, packet_read, packet_rest, PacketView,
};
use crate::protocol::{
    be16_at, header_of, length_of, length_value, publish_read, publish_rest, topic_bytes, MQTTRead,
    MQTTReadView,
};
use crate::relay::{drained, lemma_publish_rest};

verus! {

/// What is read off a publish stream holds the bytes that it was read from.
pub proof fn reads_hold_their_bytes(packet: Bytes)
    ensures
        MQTTRead::Publish(packet)@ == MQTTReadView::Publish(held(packet)),
        MQTTRead::Disconnect@ == MQTTReadView::Disconnect,
{
}

/// What a publish stream makes of a packet, whatever follows it. It looks at the type and at the
/// quality of service in the first byte, and at no other flag; then at the topic, which has to fit
/// into the packet and to be UTF-8. The packet is given on as it is, and it alone is taken off the
/// stream in any case.
pub proof fn publish_stream_by_bytes(byte1: u8, body: Seq<u8>, rest: Seq<u8>)
    requires
        body.len() <= 268_435_455,
    ensures
        ({
            let s = frame(byte1, body) + rest;
            let read = publish_read(s);
            let topic_len = 256 * body[0] + body[1];
            &&& publish_rest(s) == rest
            &&& byte1 < 16 ==> read == Err::<MQTTReadView, MqttError>(
                MqttError::InvalidPacketType(0),
            )
            &&& byte1 >= 240 ==> read == Err::<MQTTReadView, MqttError>(
                MqttError::InvalidPacketType(15),
            )
            &&& 224 <= byte1 < 240 ==> read == Ok::<MQTTReadView, MqttError>(
                MQTTReadView::Disconnect,
            )
            &&& 16 <= byte1 < 224 ==> {
                &&& (byte1 / 2 % 4 == 1 || byte1 / 2 % 4 == 2) ==> read == Err::<
                    MQTTReadView,
                    MqttError,
                >(MqttError::InvalidQoS(0))
                &&& byte1 / 2 % 4 == 3 ==> read == Err::<MQTTReadView, MqttError>(
                    MqttError::InvalidQoS(3),
                )
                &&& byte1 / 2 % 4 == 0 ==> {
                    &&& body.len() == 0 ==> read == Err::<MQTTReadView, MqttError>(
                        MqttError::PayloadRequired,
                    )
                    &&& body.len() == 1 ==> read == Err::<MQTTReadView, MqttError>(
                        MqttError::MalformedPacket,
                    )
                    &&& 2 <= body.len() < 2 + topic_len ==> read == Err::<MQTTReadView, MqttError>(
                        MqttError::BoundaryCrossed(topic_len as usize),
                    )
                    &&& body.len() >= 2 + topic_len && body.len() >= 2 ==> read == if valid_utf8(
                        body.subrange(2, 2 + topic_len),
                    ) {
                        Ok::<MQTTReadView, MqttError>(
                            MQTTReadView::Publish(frame(byte1, body)),
                        )
                    } else {
                        Err(MqttError::TopicNotUtf8)
                    }
                }
            }
        }),
{
    let packet = frame(byte1, body);
    let s = packet + rest;
    header_round_trip(byte1, body, rest);
    frame_by_bytes(byte1, body);
    let h = 1 + length_bytes(body.len() as int).len() as int;
    assert(s.take(h + body.len()) == packet);
    assert(s.skip(h + body.len()) == rest);
    assert(s[0] == byte1 && packet[0] == byte1);
    if body.len() >= 2 {
        assert(packet[h] == body[0] && packet[h + 1] == body[1]);
        let n = 256 * body[0] + body[1];
        assert(be16_at(packet, h) == n);
        if body.len() >= 2 + n {
            assert(topic_bytes(packet, h) == body.subrange(2, 2 + n));
        }
    }
}

/// A packet that has not come in as a whole is waited for, and stays: once its fixed header is
/// there, for exactly the bytes that are missing.
pub proof fn publish_stream_waits(byte1: u8, body: Seq<u8>, k: int)
    requires
        body.len() <= 268_435_455,
        0 <= k < frame(byte1, body).len(),
    ensures
        ({
            let packet = frame(byte1, body);
            let part = packet.take(k);
            &&& publish_rest(part) == part
            &&& k >= packet.len() - body.len() ==> publish_read(part) == Err::<
                MQTTReadView,
                MqttError,
            >(MqttError::InsufficientBytes((packet.len() - k) as usize))
            &&& 2 <= k < packet.len() - body.len() ==> publish_read(part) == Err::<
                MQTTReadView,
                MqttError,
            >(MqttError::InsufficientBytes(1))
            &&& k < 2 ==> publish_read(part) == Err::<MQTTReadView, MqttError>(
                MqttError::InsufficientBytes((2 - k) as usize),
            )
        }),
{
    let packet = frame(byte1, body);
    let part = packet.take(k);
    let n = body.len() as int;
    let l = length_bytes(n);
    let h = 1 + l.len() as int;
    header_round_trip(byte1, body, Seq::empty());
    assert(packet + Seq::<u8>::empty() == packet);
    reveal_with_fuel(length_value, 5);
    if k >= 2 {
        let u = part.skip(1);
        let v = packet.skip(1);
        assert(forall|i: int| 0 <= i < k - 1 ==> u[i] == v[i]);
        assert(forall|i: int| 0 <= i < l.len() ==> v[i] == l[i]);
        assert(u[0] == l[0]);
        if k >= h {
            assert(l.len() >= 2 ==> u[1] == l[1]);
            assert(l.len() >= 3 ==> u[2] == l[2]);
            assert(l.len() >= 4 ==> u[3] == l[3]);
            assert(length_of(u) == length_of(v));
            assert(header_of(part) == header_of(packet));
        } else {
            assert(l.len() >= 2);
            assert(u.len() >= 2 ==> u[1] == l[1]);
            assert(u.len() >= 3 ==> u[2] == l[2]);
            assert(length_of(u) == Err::<(int, int), MqttError>(MqttError::InsufficientBytes(1)));
        }
    }
}

/// What the reader for all packets makes of a packet, whatever follows it: one that announces more
/// than it may is refused and stays, every other is taken off the stream, and is read for its
/// content or refused for it.
pub proof fn packet_by_bytes(byte1: u8, body: Seq<u8>, rest: Seq<u8>, max_size: int)
    requires
        body.len() <= 268_435_455,
    ensures
        ({
            let s = frame(byte1, body) + rest;
            &&& first_packet(s) == frame(byte1, body)
            &&& body.len() > max_size ==> {
                &&& packet_read(s, max_size) == Err::<PacketView, MqttError>(
                    MqttError::PayloadSizeLimitExceeded(body.len() as usize),
                )
                &&& packet_rest(s, max_size) == s
            }
            &&& body.len() <= max_size ==> {
                &&& packet_rest(s, max_size) == rest
                &&& match packet_content(byte1, body) {
                    Some(content) => packet_read(s, max_size) == Ok::<PacketView, MqttError>(
                        content,
                    ),
                    None => packet_read(s, max_size) matches Err(MqttError::Content(_)),
                }
            }
        }),
{
    let s = frame(byte1, body) + rest;
    header_round_trip(byte1, body, rest);
    let h = 1 + length_bytes(body.len() as int).len() as int;
    assert(s.take(h + body.len()) == frame(byte1, body));
    assert(s.subrange(h, h + body.len()) == body);
    assert(s.skip(h + body.len()) == rest);
    assert(s[0] == byte1);
}

/// The content of a PUBLISH packet, by its bytes: the topic behind its length, an id of two bytes
/// where it is sent more than at most once, and the payload, all of it.
pub proof fn publish_content_by_bytes(byte1: u8, body: Seq<u8>)
    requires
        byte1 / 16 == 3,
    ensures
        ({
            let topic_len = 256 * body[0] + body[1];
            let topic = body.subrange(2, 2 + topic_len);
            let id = 256 * body[2 + topic_len] + body[3 + topic_len];
            let qos = byte1 / 2 % 4;
            &&& body.len() >= 2 && body.len() >= 2 + topic_len && valid_utf8(topic) && qos == 0
                ==> packet_content(byte1, body) == Some(
                PacketView::Publish {
                    topic: decode_utf8(topic),
                    payload: body.skip(2 + topic_len),
                },
            )
            &&& body.len() >= 2 && body.len() >= 4 + topic_len && valid_utf8(topic) && 1 <= qos <= 2
                && id != 0 ==> packet_content(byte1, body) == Some(
                PacketView::Publish {
                    topic: decode_utf8(topic),
                    payload: body.skip(4 + topic_len),
                },
            )
            &&& (body.len() < 2 || body.len() < 2 + topic_len || !valid_utf8(topic) || qos == 3)
                ==> packet_content(byte1, body) is None
            &&& body.len() >= 2 && qos != 0 && (body.len() < 4 + topic_len || id == 0)
                ==> packet_content(byte1, body) is None
        }),
{
}

/// Each whole PUBLISH packet that the reader for all packets takes and that is sent at most once is
/// taken off a publish stream as it is, whatever its other flags are; and the other way round.
pub proof fn publishes_are_taken_by_both(s: Seq<u8>, max_size: int)
    requires
        s.len() >= 1,
        s[0] / 16 == 3,
        s[0] / 2 % 4 == 0,
        header_of(s) matches Ok((_, len)) ==> len <= max_size,
    ensures
        (packet_read(s, max_size) matches Ok(PacketView::Publish { .. })) == (publish_read(s)
            == Ok::<MQTTReadView, MqttError>(MQTTReadView::Publish(first_packet(s)))),
        packet_read(s, max_size) is Ok == publish_read(s) is Ok,
        packet_rest(s, max_size) == publish_rest(s),
{
    reveal_with_fuel(length_value, 5);
    if let Ok((header_len, len)) = header_of(s) {
        if s.len() >= header_len + len {
            let packet = s.take(header_len + len);
            let body = s.subrange(header_len, header_len + len);
            assert(packet[0] == s[0]);
            if len >= 2 {
                assert(packet[header_len] == body[0] && packet[header_len + 1] == body[1]);
                assert(be16_at(packet, header_len) == be16_at(body, 0));
                if be16_at(body, 0) + 2 <= len {
                    assert(topic_bytes(packet, header_len) == body.subrange(
                        2,
                        2 + be16_at(body, 0),
                    ));
                }
            }
        }
    }
}

/// The flags for a message that is sent again and for one that is kept change nothing: a publish
/// stream takes a packet with them where it takes it without.
pub proof fn other_flags_change_nothing(
    byte1: u8,
    other: u8,
    body: Seq<u8>,
    rest: Seq<u8>,
)
    requires
        body.len() <= 268_435_455,
        byte1 / 16 == other / 16,
        byte1 / 2 % 4 == other / 2 % 4,
    ensures
        match (publish_read(frame(byte1, body) + rest), publish_read(frame(other, body) + rest)) {
            (Ok(MQTTReadView::Publish(packet)), Ok(MQTTReadView::Publish(same))) => packet == frame(
                byte1,
                body,
            ) && same == frame(other, body),
            (Ok(MQTTReadView::Disconnect), Ok(MQTTReadView::Disconnect)) => true,
            (Err(e), Err(same)) => e == same,
            _ => false,
        },
{
    publish_stream_by_bytes(byte1, body, rest);
    publish_stream_by_bytes(other, body, rest);
    assert(byte1 < 16 <==> other < 16);
    assert(byte1 >= 240 <==> other >= 240);
    assert(224 <= byte1 < 240 <==> 224 <= other < 240);
}

/// What comes of a publish stream, packet by packet: a publish is given on before those behind it,
/// a DISCONNECT packet is noted and the stream goes on, a wrong packet ends it, and nothing comes
/// of a packet that has not come in as a whole.
pub proof fn drained_by_packet(s: Seq<u8>)
    ensures
        match publish_read(s) {
            Ok(MQTTReadView::Publish(packet)) => {
                &&& drained(s).publishes == seq![packet] + drained(publish_rest(s)).publishes
                &&& drained(s).disconnect == drained(publish_rest(s)).disconnect
                &&& drained(s).rest == drained(publish_rest(s)).rest
                &&& drained(s).failure == drained(publish_rest(s)).failure
            },
            Ok(MQTTReadView::Disconnect) => {
                &&& drained(s).publishes == drained(publish_rest(s)).publishes
                &&& drained(s).disconnect
                &&& drained(s).rest == drained(publish_rest(s)).rest
                &&& drained(s).failure == drained(publish_rest(s)).failure
            },
            Err(e) => {
                &&& drained(s).publishes.len() == 0
                &&& !drained(s).disconnect
                &&& drained(s).rest == publish_rest(s)
                &&& drained(s).failure == if e is InsufficientBytes {
                    None
                } else {
                    Some(e)
                }
            },
        },
{
    lemma_publish_rest(s);
}

/// The publishes that come of a stream are packets that stand in it, whole and apart: all that is
/// taken off the stream and is no publish is DISCONNECT packets, or the packet that is wrong.
pub proof fn drained_is_part_of_stream(s: Seq<u8>)
    ensures
        forall|i: int|
            0 <= i < drained(s).publishes.len() ==> #[trigger] drained(s).publishes[i].len() >= 2,
        bytes_of(drained(s).publishes) + drained(s).rest.len() <= s.len(),
        !drained(s).disconnect && drained(s).failure is None ==> bytes_of(drained(s).publishes)
            + drained(s).rest.len() == s.len(),
    decreases s.len(),
{
    lemma_publish_rest(s);
    drained_by_packet(s);
    reveal_with_fuel(length_value, 5);
    if let Ok(read) = publish_read(s) {
        drained_is_part_of_stream(publish_rest(s));
        if let MQTTReadView::Publish(packet) = read {
            let behind = drained(publish_rest(s)).publishes;
            lemma_bytes_of(packet, behind);
            assert(drained(s).publishes == seq![packet] + behind);
            assert forall|i: int| 0 <= i < drained(s).publishes.len() implies #[trigger] drained(
                s,
            ).publishes[i].len() >= 2 by {
                if i > 0 {
                    assert(drained(s).publishes[i] == behind[i - 1]);
                }
            }
        }
    }
}

/// How many bytes the packets hold together.
pub open spec fn bytes_of(packets: Seq<Seq<u8>>) -> nat
    decreases packets.len(),
{
    if packets.len() == 0 {
        0
    } else {
        packets[0].len() + bytes_of(packets.drop_first())
    }
}

proof fn lemma_bytes_of(packet: Seq<u8>, packets: Seq<Seq<u8>>)
    ensures
        bytes_of(seq![packet] + packets) == packet.len() + bytes_of(packets),
{
    assert((seq![packet] + packets).drop_first() == packets);
}

} // verus!
