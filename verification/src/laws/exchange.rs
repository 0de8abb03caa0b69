//! Client and server understand each other.

use bytes::Bytes;
use vstd::prelude::*;
use vstd::utf8::encode_utf8;

use crate::buffer::held;
use crate::client::arrival;
use crate::error::{Error, MqttError};
use crate::inbound::{awaited, wants, Outcome, Wanted};
use crate::laws::framing::{
    connack_round_trip, connect_round_trip, disconnect_round_trip, publish_round_trip,
    suback_round_trip, subscribe_round_trip,
};
use crate::laws::wire::answers_by_bytes;
use crate::packet::{
    connack_packet, connect_packet, disconnect_packet, packet_read, packet_rest, publish_body,
    publish_packet, suback_packet, subscribe_packet, Packet, PacketView, MAX_PACKET_SIZE,
};
use crate::server::{next_of, purpose_of, Purpose, PurposeView};

verus! {

/// A server finds the CONNECT packet that a client opens a connection with, and the client finds
/// the CONNACK packet that the server answers with, whatever follows.
pub proof fn connection_is_answered(id: Seq<char>, rest: Seq<u8>)
    requires
        encode_utf8(id).len() <= 65535,
    ensures
        awaited(connect_packet(id) + rest, Wanted::Connect) == Outcome::Found(
            PacketView::Connect,
            rest,
        ),
        awaited(connack_packet() + rest, Wanted::ConnAck) == Outcome::Found(
            PacketView::ConnAck,
            rest,
        ),
{
    connect_round_trip(id, rest);
    connack_round_trip(rest);
}

/// A stream that a client opens to publish to a topic is taken as one by the server, and the bytes
/// behind the packet that opens it are kept for it.
pub proof fn publisher_is_taken(topic: Seq<char>, init_payload: Seq<u8>, rest: Seq<u8>)
    requires
        encode_utf8(topic).len() <= 65535,
        publish_body(topic, init_payload).len() <= MAX_PACKET_SIZE,
    ensures
        awaited(publish_packet(topic, init_payload) + rest, Wanted::Purpose) == Outcome::Found(
            PacketView::Publish { topic, payload: init_payload },
            rest,
        ),
        purpose_of(PacketView::Publish { topic, payload: init_payload }) == Some(
            PurposeView::Publish(topic),
        ),
{
    publish_round_trip(topic, init_payload, rest);
}

/// A stream that a client opens to subscribe to a topic is taken as one by the server, and the
/// client finds the SUBACK packet that the server answers with and keeps what is behind it.
pub proof fn subscriber_is_answered(topic: Seq<char>, rest: Seq<u8>)
    requires
        encode_utf8(topic).len() <= 65535,
    ensures
        awaited(subscribe_packet(topic) + rest, Wanted::Purpose) == Outcome::Found(
            PacketView::Subscribe { filters: seq![topic] },
            rest,
        ),
        purpose_of(PacketView::Subscribe { filters: seq![topic] }) == Some(
            PurposeView::Subscribe(topic),
        ),
        awaited(suback_packet() + rest, Wanted::SubAck) == Outcome::Found(PacketView::SubAck, rest),
{
    subscribe_round_trip(topic, rest);
    suback_round_trip(rest);
}

/// The packet that a client closes a connection with ends it, on a stream of which it is not yet
/// known what it is for.
pub proof fn close_is_taken(rest: Seq<u8>)
    ensures
        awaited(disconnect_packet() + rest, Wanted::Purpose) == Outcome::Found(
            PacketView::Disconnect,
            rest,
        ),
        purpose_of(PacketView::Disconnect) == Some(PurposeView::Disconnect),
{
    disconnect_round_trip(rest);
}

/// What is waited for, packet by packet: the one that is waited for is found, whatever follows it,
/// and all that follows it is left; another one is passed over; one that is wrong ends the wait,
/// and one that has not come in as a whole is waited for with all its bytes.
pub proof fn awaited_by_packet(s: Seq<u8>, wanted: Wanted)
    ensures
        match packet_read(s, 1_048_576) {
            Ok(packet) => if wants(wanted, packet) {
                awaited(s, wanted) == Outcome::Found(packet, packet_rest(s, 1_048_576))
            } else {
                awaited(s, wanted) == awaited(packet_rest(s, 1_048_576), wanted)
            },
            Err(e) => awaited(s, wanted) == if e is InsufficientBytes {
                Outcome::Waiting(s)
            } else {
                Outcome::Failed(e, packet_rest(s, 1_048_576))
            },
        },
{
}

/// Which packets end which wait.
pub proof fn what_is_waited_for(packet: PacketView)
    ensures
        wants(Wanted::Connect, packet) <==> packet == PacketView::Connect,
        wants(Wanted::ConnAck, packet) <==> packet == PacketView::ConnAck,
        wants(Wanted::SubAck, packet) <==> packet == PacketView::SubAck,
        wants(Wanted::Publish, packet) <==> packet matches PacketView::Publish { .. },
        wants(Wanted::Purpose, packet) <==> (packet matches PacketView::Publish { .. })
            || (packet matches PacketView::Subscribe { .. }) || packet == PacketView::Disconnect,
{
}

/// Once the SUBACK packet has come in, all the bytes behind it are left to the subscriber, which
/// reads from them what it would read had they come in by themselves.
pub proof fn subscriber_gets_what_is_behind_its_answer(
    rest: Seq<u8>,
    r: Result<bool, Error>,
    left: Seq<u8>,
)
    requires
        arrival(awaited(seq![0x90u8, 3, 0, 0, 0] + rest, Wanted::SubAck), r, left),
    ensures
        r == Ok::<bool, Error>(true),
        left == rest,
{
    answers_by_bytes();
    suback_round_trip(rest);
}

/// Once the CONNACK packet has come in, all the bytes behind it are left.
pub proof fn client_keeps_what_is_behind_its_answer(
    rest: Seq<u8>,
    r: Result<bool, Error>,
    left: Seq<u8>,
)
    requires
        arrival(awaited(seq![0x20u8, 2, 0, 0] + rest, Wanted::ConnAck), r, left),
    ensures
        r == Ok::<bool, Error>(true),
        left == rest,
{
    answers_by_bytes();
    connack_round_trip(rest);
}

/// What a client says of its answer, by what waiting for it found: it is there, it is not there
/// yet, or it cannot come; and no byte is lost behind what was found.
pub proof fn answers_are_told(
    packet: PacketView,
    e: MqttError,
    rest: Seq<u8>,
    r: Result<bool, Error>,
    left: Seq<u8>,
)
    ensures
        arrival(Outcome::Found(packet, rest), r, left) <==> r == Ok::<bool, Error>(true) && left
            == rest,
        arrival(Outcome::Waiting(rest), r, left) <==> r == Ok::<bool, Error>(false) && left == rest,
        arrival(Outcome::Failed(e, rest), r, left) <==> r == Err::<bool, Error>(Error::MQTT(e))
            && left == rest,
{
}

/// What a new stream is for: the topic of a PUBLISH packet whatever its payload is, or the first
/// topic of a SUBSCRIBE packet however many it has.
pub proof fn purpose_by_packet(
    topic: Seq<char>,
    payload: Seq<u8>,
    filters: Seq<Seq<char>>,
)
    ensures
        purpose_of(PacketView::Publish { topic, payload }) == Some(PurposeView::Publish(topic)),
        purpose_of(PacketView::Subscribe { filters: seq![topic] + filters }) == Some(
            PurposeView::Subscribe(topic),
        ),
        purpose_of(PacketView::Subscribe { filters: Seq::empty() }) == Some(PurposeView::Done),
        purpose_of(PacketView::Disconnect) == Some(PurposeView::Disconnect),
        purpose_of(PacketView::Connect) is None,
        purpose_of(PacketView::ConnAck) is None,
        purpose_of(PacketView::SubAck) is None,
        purpose_of(PacketView::Unsubscribe) is None,
        purpose_of(PacketView::Other) is None,
{
    assert((seq![topic] + filters)[0] == topic);
}

/// What packets and purposes hold is what is in them.
pub proof fn packets_hold_their_content(topic: String, payload: Bytes, filters: Vec<String>, i: int)
    ensures
        (Packet::Publish { topic, payload })@ == (PacketView::Publish {
            topic: topic@,
            payload: held(payload),
        }),
        (Packet::Subscribe { filters })@ matches PacketView::Subscribe { filters: names }
            && names.len() == filters@.len() && (0 <= i < names.len() ==> names[i]
            == filters@[i]@),
        Packet::Connect@ == PacketView::Connect,
        Packet::ConnAck@ == PacketView::ConnAck,
        Packet::SubAck@ == PacketView::SubAck,
        Packet::Unsubscribe@ == PacketView::Unsubscribe,
        Packet::Disconnect@ == PacketView::Disconnect,
        Packet::Other@ == PacketView::Other,
        Purpose::Publish(topic)@ == PurposeView::Publish(topic@),
        Purpose::Subscribe(topic)@ == PurposeView::Subscribe(topic@),
        Purpose::Done@ == PurposeView::Done,
        Purpose::Disconnect@ == PurposeView::Disconnect,
{
}

/// What an endpoint gives is taken as it is; only where it gives nothing more is it broken.
pub proof fn what_comes_in_is_taken<T>(item: T, e: quinn::ConnectionError)
    ensures
        next_of(Some(Ok(item))) == Ok::<T, Error>(item),
        next_of::<T>(Some(Err(e))) == Err::<T, Error>(Error::Connection(e)),
        next_of::<T>(None) == Err::<T, Error>(Error::ConnectionBroken),
{
}

} // verus!
