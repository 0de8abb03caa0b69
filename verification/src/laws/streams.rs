//! How a stream is cut into reads does not matter.

use vstd::prelude::*;

use crate::error::MqttError;
use crate::inbound::{awaited, lemma_packet_rest, wants, Outcome, Wanted};
use crate::packet::{first_packet, packet_read, packet_rest, PacketView, MAX_PACKET_SIZE};
use crate::protocol::{
    be16_at, header_of, length_of, length_value, publish_read, publish_rest, topic_bytes,
    MQTTReadView,
};
use crate::relay::{drained, lemma_publish_rest, Drained};

verus! {

/// Where a remaining length has been read, or found to be wrong, more bytes change nothing.
proof fn lemma_length_extend(s: Seq<u8>, t: Seq<u8>)
    requires
        !(length_of(s) matches Err(MqttError::InsufficientBytes(_))),
    ensures
        length_of(s + t) == length_of(s),
{
    reveal_with_fuel(length_value, 5);
    let u = s + t;
    assert(forall|i: int| 0 <= i < s.len() ==> u[i] == s[i]);
    assert(s.len() >= 1);
    if s.len() >= 4 {
        assert(u[0] == s[0] && u[1] == s[1] && u[2] == s[2] && u[3] == s[3]);
    } else if s.len() == 3 {
        assert(u[0] == s[0] && u[1] == s[1] && u[2] == s[2]);
    } else if s.len() == 2 {
        assert(u[0] == s[0] && u[1] == s[1]);
    } else {
        assert(u[0] == s[0]);
    }
}

/// Where a fixed header has been read, or found to be wrong, more bytes change nothing.
proof fn lemma_header_extend(s: Seq<u8>, t: Seq<u8>)
    requires
        !(header_of(s) matches Err(MqttError::InsufficientBytes(_))),
    ensures
        header_of(s + t) == header_of(s),
        header_of(s) matches Ok((header_len, len)) ==> 2 <= header_len <= s.len() && 0 <= len,
{
    reveal_with_fuel(length_value, 5);
    lemma_length_extend(s.skip(1), t);
    assert((s + t).skip(1) == s.skip(1) + t);
}

/// Once a packet has come in, what comes in behind it changes neither the packet nor what is left
/// before it.
pub proof fn packet_read_extend(s: Seq<u8>, t: Seq<u8>, max_size: int)
    requires
        !(packet_read(s, max_size) matches Err(MqttError::InsufficientBytes(_))),
    ensures
        packet_read(s + t, max_size) == packet_read(s, max_size),
        packet_rest(s + t, max_size) == packet_rest(s, max_size) + t,
{
    lemma_header_extend(s, t);
    match header_of(s) {
        Err(_) => {},
        Ok((header_len, len)) => {
            if len <= max_size {
                let end = header_len + len;
                assert((s + t).take(end) == s.take(end));
                assert((s + t).subrange(header_len, end) == s.subrange(header_len, end));
                assert((s + t).skip(end) == s.skip(end) + t);
            }
        },
    }
}

/// Waiting for a packet finds the same however the stream is cut into reads: what is found in the
/// first bytes stays found, and where nothing was found there, going on with the bytes that were
/// left and those that come in then is the same as starting with all of them.
pub proof fn awaited_in_parts(s: Seq<u8>, t: Seq<u8>, wanted: Wanted)
    ensures
        awaited(s + t, wanted) == match awaited(s, wanted) {
            Outcome::Found(packet, rest) => Outcome::Found(packet, rest + t),
            Outcome::Waiting(rest) => awaited(rest + t, wanted),
            Outcome::Failed(e, rest) => Outcome::Failed(e, rest + t),
        },
    decreases s.len(),
{
    let max = MAX_PACKET_SIZE as int;
    match packet_read(s, max) {
        Err(MqttError::InsufficientBytes(_)) => {},
        Err(_) => {
            packet_read_extend(s, t, max);
        },
        Ok(packet) => {
            packet_read_extend(s, t, max);
            lemma_packet_rest(s, max);
            if !wants(wanted, packet) {
                awaited_in_parts(packet_rest(s, max), t, wanted);
            }
        },
    }
}

/// Packets that are not waited for are passed over.
pub proof fn awaited_skips(s: Seq<u8>, wanted: Wanted)
    requires
        packet_read(s, MAX_PACKET_SIZE as int) is Ok,
        !wants(wanted, packet_read(s, MAX_PACKET_SIZE as int)->Ok_0),
    ensures
        awaited(s, wanted) == awaited(packet_rest(s, MAX_PACKET_SIZE as int), wanted),
{
}

/// Where nothing was found, no whole packet is left: nothing can be read off what is left without
/// more bytes.
pub proof fn awaited_waits(s: Seq<u8>, wanted: Wanted)
    ensures
        awaited(s, wanted) matches Outcome::Waiting(rest) ==> packet_read(
            rest,
            MAX_PACKET_SIZE as int,
        ) matches Err(MqttError::InsufficientBytes(_)),
    decreases s.len(),
{
    let max = MAX_PACKET_SIZE as int;
    if packet_read(s, max) is Ok {
        lemma_packet_rest(s, max);
        if !wants(wanted, packet_read(s, max)->Ok_0) {
            awaited_waits(packet_rest(s, max), wanted);
        }
    }
}

/// What comes in behind a packet of a publish stream changes neither the packet nor what is left
/// before it.
proof fn lemma_publish_read_extend(s: Seq<u8>, t: Seq<u8>)
    requires
        !(publish_read(s) matches Err(MqttError::InsufficientBytes(_))),
    ensures
        publish_read(s + t) == publish_read(s),
        publish_rest(s + t) == publish_rest(s) + t,
{
    lemma_header_extend(s, t);
    match header_of(s) {
        Err(_) => {},
        Ok((header_len, len)) => {
            let end = header_len + len;
            assert((s + t).take(end) == s.take(end));
            assert((s + t).skip(end) == s.skip(end) + t);
            assert((s + t)[0] == s[0]);
        },
    }
}

/// A publish stream gives the same publishes, in the same order, however it is cut into reads, be
/// it inside of a packet: what came in first is given first, and then what the bytes that were left
/// give with those that come in next. Nothing is given twice, and nothing is lost. A stream that
/// failed stays failed.
pub proof fn drained_in_parts(s: Seq<u8>, t: Seq<u8>)
    ensures
        drained(s + t) == match drained(s).failure {
            None => Drained {
                publishes: drained(s).publishes + drained(drained(s).rest + t).publishes,
                disconnect: drained(s).disconnect || drained(drained(s).rest + t).disconnect,
                ..drained(drained(s).rest + t)
            },
            Some(_) => Drained { rest: drained(s).rest + t, ..drained(s) },
        },
    decreases s.len(),
{
    lemma_publish_rest(s);
    match publish_read(s) {
        Err(MqttError::InsufficientBytes(_)) => {
            assert(drained(s).publishes + drained(s + t).publishes == drained(s + t).publishes);
        },
        Err(_) => {
            lemma_publish_read_extend(s, t);
        },
        Ok(read) => {
            lemma_publish_read_extend(s, t);
            drained_in_parts(publish_rest(s), t);
            if read is Publish && drained(s).failure is None {
                assert(drained(s + t).publishes == drained(s).publishes + drained(
                    drained(s).rest + t,
                ).publishes);
            }
        },
    }
}

/// Where no packet is wrong, no whole packet is left: nothing can be read off what is left without
/// more bytes.
pub proof fn drained_waits(s: Seq<u8>)
    ensures
        drained(s).failure is None ==> publish_read(drained(s).rest) matches Err(
            MqttError::InsufficientBytes(_),
        ),
    decreases s.len(),
{
    lemma_publish_rest(s);
    if publish_read(s) is Ok {
        drained_waits(publish_rest(s));
    }
}

/// The reader for publish streams reads PUBLISH packets as the reader for all packets does: it
/// waits for the same bytes, takes the same bytes off the stream, and takes only packets that the
/// other reads as PUBLISH packets too. A packet that ends the connection for the first does so for
/// the second.
pub proof fn readers_agree(s: Seq<u8>, max_size: int)
    requires
        header_of(s) matches Ok((_, len)) ==> len <= max_size,
    ensures
        packet_rest(s, max_size) == publish_rest(s),
        match (publish_read(s), packet_read(s, max_size)) {
            (
                Err(MqttError::InsufficientBytes(more)),
                Err(MqttError::InsufficientBytes(other)),
            ) => more == other,
            (Err(MqttError::InsufficientBytes(_)), _) => false,
            (_, Err(MqttError::InsufficientBytes(_))) => false,
            _ => true,
        },
        publish_read(s) matches Ok(MQTTReadView::Publish(packet)) ==> packet == first_packet(s) && (
        s[0] / 16 == 3 ==> packet_read(s, max_size) matches Ok(PacketView::Publish { .. })),
        publish_read(s) matches Ok(MQTTReadView::Disconnect) ==> packet_read(s, max_size) == Ok::<
            PacketView,
            MqttError,
        >(PacketView::Disconnect),
{
    if let Ok((header_len, len)) = header_of(s) {
        lemma_header_extend(s, Seq::empty());
        if s.len() >= header_len + len {
            let packet = s.take(header_len + len);
            let body = s.subrange(header_len, header_len + len);
            assert(packet[0] == s[0]);
            if len >= 2 {
                assert(packet[header_len] == body[0] && packet[header_len + 1] == body[1]);
                assert(be16_at(packet, header_len) == be16_at(body, 0));
                if be16_at(body, 0) + 2 <= len {
                    assert(topic_bytes(packet, header_len) == body.subrange(
                        2,
                        2 + be16_at(body, 0),
                    ));
                }
            }
        }
    }
}

} // verus!
