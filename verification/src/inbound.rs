//! Waiting for a packet among those that come in on a stream.

use bytes::BytesMut;
use vstd::prelude::*;

use crate::buffer::buffered;
use crate::error::{Error, MqttError};
use crate::packet::{packet_read, packet_rest, read_packet, Packet, PacketView, MAX_PACKET_SIZE};
use crate::protocol::header_of;

verus! {

/// What is waited for.
#[derive(Debug, Clone, Copy, PartialEq, Eq, Structural)]
pub enum Wanted {
    /// The CONNECT packet that a client opens a connection with.
    Connect,
    /// The answer to it.
    ConnAck,
    /// The answer to a SUBSCRIBE packet.
    SubAck,
    /// A published message.
    Publish,
    /// A packet that says what a new stream is for, or that ends the connection.
    Purpose,
}

/// The packet is one that is waited for.
pub open spec fn wants(wanted: Wanted, packet: PacketView) -> bool {
    match wanted {
        Wanted::Connect => packet is Connect,
        Wanted::ConnAck => packet is ConnAck,
        Wanted::SubAck => packet is SubAck,
        Wanted::Publish => packet is Publish,
        Wanted::Purpose => packet is Publish || packet is Subscribe || packet is Disconnect,
    }
}

/// What follows from one attempt to read a packet.
#[derive(Debug)]
pub enum Step {
    /// The packet that was waited for.
    Found(Packet),
    /// Another packet, which is passed over.
    Skip,
    /// There is no whole packet yet.
    More,
}

/// Decides what follows from one attempt to read a packet: other packets are passed over, a packet
/// that is not there as a whole is waited for, and every other error ends the wait.
pub fn sort(read: Result<Packet, MqttError>, wanted: Wanted) -> (r: Result<Step, Error>)
    ensures
        match read {
            Ok(packet) => if wants(wanted, packet@) {
                r matches Ok(Step::Found(found)) && found == packet
            } else {
                r matches Ok(Step::Skip)
            },
            Err(MqttError::InsufficientBytes(_)) => r matches Ok(Step::More),
            Err(e) => r == Err::<Step, Error>(Error::MQTT(e)),
        },
{
    match read {
        Ok(packet) => {
            let found: bool = match (wanted, &packet) {
                (Wanted::Connect, Packet::Connect) => true,
                (Wanted::ConnAck, Packet::ConnAck) => true,
                (Wanted::SubAck, Packet::SubAck) => true,
                (Wanted::Publish, Packet::Publish { .. }) => true,
                (Wanted::Purpose, Packet::Publish { .. }) => true,
                (Wanted::Purpose, Packet::Subscribe { .. }) => true,
                (Wanted::Purpose, Packet::Disconnect) => true,
                _ => false,
            };
            if found {
                Ok(Step::Found(packet))
            } else {
                Ok(Step::Skip)
            }
        },
        Err(MqttError::InsufficientBytes(_)) => Ok(Step::More),
        Err(e) => Err(Error::MQTT(e)),
    }
}

/// What `await_packet` finds in a buffer.
pub enum Outcome {
    /// The packet that was waited for, and the bytes behind it.
    Found(PacketView, Seq<u8>),
    /// There is no such packet among the whole packets in the buffer, and these bytes are left
    /// behind them.
    Waiting(Seq<u8>),
    /// A packet was wrong, and these bytes are left.
    Failed(MqttError, Seq<u8>),
}

/// What waiting for a packet finds in a buffer that holds `s`.
pub open spec fn awaited(s: Seq<u8>, wanted: Wanted) -> Outcome
    decreases s.len(),
{
    let rest = packet_rest(s, MAX_PACKET_SIZE as int);
    match packet_read(s, MAX_PACKET_SIZE as int) {
        Ok(packet) => if wants(wanted, packet) {
            Outcome::Found(packet, rest)
        } else {
            proof {
                lemma_packet_rest(s, MAX_PACKET_SIZE as int);
            }
            awaited(rest, wanted)
        },
        Err(MqttError::InsufficientBytes(_)) => Outcome::Waiting(s),
        Err(e) => Outcome::Failed(e, rest),
    }
}

/// Reading a packet makes the rest shorter; waiting for more bytes leaves all of them.
pub proof fn lemma_packet_rest(s: Seq<u8>, max_size: int)
    ensures
        packet_read(s, max_size) is Ok ==> packet_rest(s, max_size).len() + 2 <= s.len(),
        packet_read(s, max_size) matches Err(MqttError::InsufficientBytes(_)) ==> packet_rest(
            s,
            max_size,
        ) == s,
{
    reveal_with_fuel(crate::protocol::length_value, 5);
}

/// Takes packets off the start of the buffer until the one that is waited for. Returns nothing
/// where the buffer has no more whole packets: more bytes have to come in, behind those that are
/// left.
pub fn await_packet(buf: &mut BytesMut, wanted: Wanted) -> (r: Result<Option<Packet>, Error>)
    ensures
        match awaited(buffered(*old(buf)), wanted) {
            Outcome::Found(packet, rest) => {
                &&& r matches Ok(Some(found)) && found@ == packet
                &&& buffered(*final(buf)) == rest
            },
            Outcome::Waiting(rest) => {
                &&& r matches Ok(None)
                &&& buffered(*final(buf)) == rest
            },
            Outcome::Failed(e, rest) => {
                &&& r == Err::<Option<Packet>, Error>(Error::MQTT(e))
                &&& buffered(*final(buf)) == rest
            },
        },
        r matches Ok(Some(found)) ==> wants(wanted, found@),
{
    loop
        invariant
            awaited(buffered(*buf), wanted) == awaited(buffered(*old(buf)), wanted),
        decreases buffered(*buf).len(),
    {
        proof {
            lemma_packet_rest(buffered(*buf), MAX_PACKET_SIZE as int);
        }
        let read = read_packet(buf, MAX_PACKET_SIZE);
        match sort(read, wanted) {
            Ok(Step::Found(packet)) => return Ok(Some(packet)),
            Ok(Step::Skip) => {},
            Ok(Step::More) => return Ok(None),
            Err(e) => return Err(e),
        }
    }
}

} // verus!
