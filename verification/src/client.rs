//! The client: opening a connection, publishing to a topic, reading from one.

use bytes::{Bytes, BytesMut};
use vstd::prelude::*;

use crate::buffer::{buffer_slice, buffered, fits, held, recv_stream_read};
use crate::error::{Error, MqttError};
use crate::inbound::{await_packet, awaited, Outcome, Wanted};
use crate::packet::{
    connect_body, connect_packet, disconnect_packet, longest, publish_body, publish_packet, room,
    subscribe_body, subscribe_packet, write_connect, write_disconnect, write_publish,
    write_subscribe, Packet, PacketView,
};
use crate::protocol::QoS;

verus! {

/// The room that the buffer of a connection starts with, in bytes.
pub const BUFFER_CAPACITY: usize = 2048;

/// Used to initiate a connection to an MQTT server over QUIC, and to open streams on it.
///
/// Each of its functions gives the packet to send, or says whether the answer to it has come in.
pub struct Client {}

impl Client {
    /// The CONNECT packet that opens a connection for a client of that name, in a buffer that can
    /// then take the answer.
    pub fn connect(id: &str) -> (r: Result<BytesMut, Error>)
        ensures
            if connect_body(id@).len() <= longest() {
                r matches Ok(buf) && buffered(buf) == connect_packet(id@)
            } else {
                r == Err::<BytesMut, Error>(Error::MQTT(MqttError::PayloadTooLong))
            },
    {
        let mut buf = BytesMut::with_capacity(BUFFER_CAPACITY);
        match write_connect(id, &mut buf) {
            Ok(()) => Ok(buf),
            Err(e) => Err(Error::MQTT(e)),
        }
    }

    /// Whether the CONNACK packet has come in. Other packets are passed over; where it is not
    /// there yet, more bytes have to come in.
    pub fn connected(buf: &mut BytesMut) -> (r: Result<bool, Error>)
        ensures
            arrival(awaited(buffered(*old(buf)), Wanted::ConnAck), r, buffered(*final(buf))),
            match awaited(buffered(*old(buf)), Wanted::ConnAck) {
                Outcome::Found(_, rest) => r == Ok::<bool, Error>(true) && buffered(*final(buf))
                    == rest,
                Outcome::Waiting(rest) => r == Ok::<bool, Error>(false) && buffered(*final(buf))
                    == rest,
                Outcome::Failed(e, rest) => r == Err::<bool, Error>(Error::MQTT(e)) && buffered(
                    *final(buf),
                ) == rest,
            },
    {
        match await_packet(buf, Wanted::ConnAck) {
            Ok(Some(_)) => Ok(true),
            Ok(None) => Ok(false),
            Err(e) => Err(e),
        }
    }

    /// A publish stream for the given topic, and the packet to open it with. Further publishes
    /// will be on the same topic. See [`Publisher`] for more details.
    ///
    /// The first payload is needed to let the server know what type of stream this is.
    pub fn publisher(topic: String, init_payload: Bytes) -> (r: Result<
        (BytesMut, Publisher),
        Error,
    >)
        ensures
            if publish_body(topic@, held(init_payload)).len() <= longest() {
                &&& r matches Ok((opening, publisher))
                &&& buffered(opening) == publish_packet(topic@, held(init_payload))
                &&& publisher.topic_view() == topic@
                &&& publisher.unflushed_view() == Seq::<u8>::empty()
            } else {
                r == Err::<(BytesMut, Publisher), Error>(Error::MQTT(MqttError::PayloadTooLong))
            },
    {
        let mut opening = BytesMut::new();
        match write_publish(topic.as_str(), QoS::AtMostOnce, init_payload, &mut opening) {
            Ok(()) => Ok((opening, Publisher { topic, buf: BytesMut::new() })),
            Err(e) => Err(Error::MQTT(e)),
        }
    }

    /// The SUBSCRIBE packet that opens a subscribe stream for the given topic, in a buffer that
    /// can then take the answer.
    pub fn subscriber(topic: &str) -> (r: Result<BytesMut, Error>)
        ensures
            if subscribe_body(topic@, QoS::AtMostOnce).len() <= longest() {
                r matches Ok(buf) && buffered(buf) == subscribe_packet(topic@)
            } else {
                r == Err::<BytesMut, Error>(Error::MQTT(MqttError::PayloadTooLong))
            },
    {
        let mut buf = BytesMut::new();
        match write_subscribe(topic, QoS::AtMostOnce, &mut buf) {
            Ok(()) => Ok(buf),
            Err(e) => Err(Error::MQTT(e)),
        }
    }

    /// Whether the SUBACK packet has come in. Other packets are passed over; where it is not there
    /// yet, more bytes have to come in. What is behind it in the buffer belongs to the
    /// [`Subscriber`].
    pub fn subscribed(buf: &mut BytesMut) -> (r: Result<bool, Error>)
        ensures
            arrival(awaited(buffered(*old(buf)), Wanted::SubAck), r, buffered(*final(buf))),
            match awaited(buffered(*old(buf)), Wanted::SubAck) {
                Outcome::Found(_, rest) => r == Ok::<bool, Error>(true) && buffered(*final(buf))
                    == rest,
                Outcome::Waiting(rest) => r == Ok::<bool, Error>(false) && buffered(*final(buf))
                    == rest,
                Outcome::Failed(e, rest) => r == Err::<bool, Error>(Error::MQTT(e)) && buffered(
                    *final(buf),
                ) == rest,
            },
    {
        match await_packet(buf, Wanted::SubAck) {
            Ok(Some(_)) => Ok(true),
            Ok(None) => Ok(false),
            Err(e) => Err(e),
        }
    }
}

/// What is returned, and left in the buffer, for what waiting for an answer found.
pub open spec fn arrival(outcome: Outcome, r: Result<bool, Error>, left: Seq<u8>) -> bool {
    match outcome {
        Outcome::Found(_, rest) => r == Ok::<bool, Error>(true) && left == rest,
        Outcome::Waiting(rest) => r == Ok::<bool, Error>(false) && left == rest,
        Outcome::Failed(e, rest) => r == Err::<bool, Error>(Error::MQTT(e)) && left == rest,
    }
}

/// A publish stream for a topic. All messages published using a single `Publisher` happen to the
/// same topic.
///
/// Note that callers explicitly need to write what is [`unflushed()`] to the network and then call
/// [`flush()`].
///
/// [`unflushed()`]: `Publisher::unflushed`
/// [`flush()`]: `Publisher::flush`
pub struct Publisher {
    topic: String,
    buf: BytesMut,
}

/// A publisher: its topic, and the bytes that have been published and not yet flushed.
pub struct PublisherView {
    pub topic: Seq<char>,
    pub unflushed: Seq<u8>,
}

impl View for Publisher {
    type V = PublisherView;

    open spec fn view(&self) -> PublisherView {
        PublisherView { topic: self.topic_view(), unflushed: self.unflushed_view() }
    }
}

/// A message was published: its packet is behind those that wait for a flush.
pub open spec fn published(before: PublisherView, after: PublisherView, payload: Seq<u8>) -> bool {
    &&& after.topic == before.topic
    &&& after.unflushed == before.unflushed + publish_packet(before.topic, payload)
}

/// What waited has been flushed: these bytes were written, and nothing waits any more.
pub open spec fn flushed(before: PublisherView, after: PublisherView, bytes: Seq<u8>) -> bool {
    &&& bytes == before.unflushed
    &&& after.topic == before.topic
    &&& after.unflushed == Seq::<u8>::empty()
}

impl Publisher {
    /// The topic.
    pub closed spec fn topic_view(&self) -> Seq<char> {
        self.topic@
    }

    /// The bytes that have been published and not yet flushed.
    pub closed spec fn unflushed_view(&self) -> Seq<u8> {
        buffered(self.buf)
    }

    /// Puts a publish packet with the given payload behind those that wait for a flush. A message
    /// that is too long for a packet is refused, and leaves nothing behind.
    pub fn publish(&mut self, payload: Bytes) -> (r: Result<(), Error>)
        requires
            room(
                old(self).unflushed_view().len(),
                publish_body(old(self).topic_view(), held(payload)).len(),
            ),
        ensures
            if publish_body(old(self).topic_view(), held(payload)).len() <= longest() {
                &&& r matches Ok(())
                &&& published(old(self)@, final(self)@, held(payload))
            } else {
                &&& r == Err::<(), Error>(Error::MQTT(MqttError::PayloadTooLong))
                &&& final(self)@ == old(self)@
            },
    {
        let len: usize = self.buf.len();
        match write_publish(self.topic.as_str(), QoS::AtMostOnce, payload, &mut self.buf) {
            Ok(()) => Ok(()),
            Err(e) => {
                self.buf.truncate(len);
                assert(buffered(self.buf) == buffered(old(self).buf));
                Err(Error::MQTT(e))
            },
        }
    }

    /// The packets that wait to be written to the network.
    pub fn unflushed(&self) -> (r: &[u8])
        ensures
            r@ == self.unflushed_view(),
    {
        buffer_slice(&self.buf)
    }

    /// Forgets the packets that waited: they have been written to the network.
    pub fn flush(&mut self)
        ensures
            flushed(old(self)@, final(self)@, old(self).unflushed_view()),
    {
        self.buf.clear();
    }

    /// Topic to which this stream publishes to.
    pub fn topic(&self) -> (r: &str)
        ensures
            r@ == self.topic_view(),
    {
        self.topic.as_str()
    }
}

/// Subscriber to a single topic.
pub struct Subscriber {
    buf: BytesMut,
}

impl Subscriber {
    /// The bytes that have come in, or, once closed, the bytes that are to be sent.
    pub closed spec fn pending(&self) -> Seq<u8> {
        buffered(self.buf)
    }

    /// A subscriber that goes on with what came in behind the SUBACK packet: there may already be
    /// publishes in it.
    pub fn new(buf: BytesMut) -> (r: Subscriber)
        ensures
            r.pending() == buffered(buf),
    {
        Subscriber { buf }
    }

    /// Reads a single publish. Returns nothing where there is none yet, and more bytes have to
    /// come in.
    pub fn read(&mut self) -> (r: Result<Option<Bytes>, Error>)
        ensures
            match awaited(old(self).pending(), Wanted::Publish) {
                Outcome::Found(PacketView::Publish { topic, payload }, rest) => {
                    &&& r matches Ok(Some(bytes)) && held(bytes) == payload
                    &&& final(self).pending() == rest
                },
                Outcome::Found(_, _) => false,
                Outcome::Waiting(rest) => {
                    &&& r matches Ok(None)
                    &&& final(self).pending() == rest
                },
                Outcome::Failed(e, rest) => {
                    &&& r == Err::<Option<Bytes>, Error>(Error::MQTT(e))
                    &&& final(self).pending() == rest
                },
            },
    {
        match await_packet(&mut self.buf, Wanted::Publish) {
            Ok(Some(Packet::Publish { topic: _, payload })) => Ok(Some(payload)),
            Ok(_) => Ok(None),
            Err(e) => Err(e),
        }
    }

    /// Takes in what one read of the stream gave, as [`recv_stream_read`] does.
    pub fn receive(&mut self, read: Result<Option<&[u8]>, quinn::ReadError>) -> (r: Result<
        usize,
        Error,
    >)
        requires
            read matches Ok(Some(chunk)) ==> fits(old(self).pending().len() + chunk@.len()),
        ensures
            match read {
                Ok(Some(chunk)) => {
                    &&& r matches Ok(len) && len == chunk@.len()
                    &&& final(self).pending() == old(self).pending() + chunk@
                },
                Ok(None) => {
                    &&& r matches Err(Error::ConnectionBroken)
                    &&& final(self).pending() == old(self).pending()
                },
                Err(e) => {
                    &&& r == Err::<usize, Error>(Error::Read(e))
                    &&& final(self).pending() == old(self).pending()
                },
            },
    {
        recv_stream_read(&mut self.buf, read)
    }

    /// Replaces what has come in by the DISCONNECT packet, which is then to be sent.
    pub fn close(&mut self) -> (r: Result<(), Error>)
        ensures
            r matches Ok(()),
            final(self).pending() == disconnect_packet(),
    {
        self.buf.clear();
        match write_disconnect(&mut self.buf) {
            Ok(()) => {
                assert(buffered(self.buf) == disconnect_packet());
                Ok(())
            },
            Err(e) => Err(Error::MQTT(e)),
        }
    }

    /// The bytes in the buffer: after [`close()`], those that are to be sent.
    ///
    /// [`close()`]: `Subscriber::close`
    pub fn outgoing(&self) -> (r: &[u8])
        ensures
            r@ == self.pending(),
    {
        buffer_slice(&self.buf)
    }
}

} // verus!
