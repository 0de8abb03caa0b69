//! The server: accepting connections, answering clients, and telling what each stream is for.

use bytes::{Bytes, BytesMut};
use vstd::prelude::*;

use crate::buffer::buffered;
use crate::client::BUFFER_CAPACITY;
use crate::error::{Error, MqttError};
use crate::inbound::{await_packet, awaited, Outcome, Wanted};
use crate::packet::{
    connack_packet, packet_read, packet_rest, read_packet,
    suback_packet, write_connack, write_suback, ConnectReturnCode, Packet, PacketView,
    MAX_PACKET_SIZE,
};
use crate::protocol::QoS;

verus! {

/// What comes out of an endpoint or a connection that gives one item after another: the item, the
/// error in its place, or a broken connection where there are no more.
pub open spec fn next_of<T>(next: Option<Result<T, quinn::ConnectionError>>) -> Result<T, Error> {
    match next {
        Some(Ok(item)) => Ok(item),
        Some(Err(e)) => Err(Error::Connection(e)),
        None => Err(Error::ConnectionBroken),
    }
}

/// A QUIC endpoint that connections come in on.
pub struct QuicServer {}

impl QuicServer {
    /// The next connection, from what the endpoint gave. An endpoint that gives no more is a
    /// broken connection.
    pub fn accept<C>(incoming: Option<Result<C, quinn::ConnectionError>>) -> (r: Result<C, Error>)
        ensures
            r == next_of(incoming),
    {
        match incoming {
            Some(Ok(conn)) => Ok(conn),
            Some(Err(e)) => Err(Error::Connection(e)),
            None => Err(Error::ConnectionBroken),
        }
    }
}

/// A QUIC connection that streams come in on.
pub struct Connection {}

impl Connection {
    /// The next stream, from what the connection gave. A connection that gives no more is broken.
    pub fn accept_stream<S>(incoming: Option<Result<S, quinn::ConnectionError>>) -> (r: Result<
        S,
        Error,
    >)
        ensures
            r == next_of(incoming),
    {
        match incoming {
            Some(Ok(stream)) => Ok(stream),
            Some(Err(e)) => Err(Error::Connection(e)),
            None => Err(Error::ConnectionBroken),
        }
    }
}

/// Decides what a listening server does with what [`QuicServer::accept`] gave: a connection is
/// served; a broken endpoint ends the server without an error; every other error ends it with that
/// error.
pub fn server<C>(accepted: Result<C, Error>) -> (r: Result<Option<C>, Error>)
    ensures
        match accepted {
            Ok(conn) => r == Ok::<Option<C>, Error>(Some(conn)),
            Err(Error::ConnectionBroken) => r == Ok::<Option<C>, Error>(None),
            Err(e) => r == Err::<Option<C>, Error>(e),
        },
{
    match accepted {
        Ok(conn) => Ok(Some(conn)),
        Err(Error::ConnectionBroken) => Ok(None),
        Err(e) => Err(e),
    }
}

/// Waits for the CONNECT packet on the first stream of a connection, and answers it. Other packets
/// are passed over.
///
/// Once the packet has come in, the buffer holds the CONNACK packet that is to be sent, and
/// nothing of what came in; before that, more bytes have to come in.
pub fn connection_handler(buf: &mut BytesMut) -> (r: Result<bool, Error>)
    ensures
        match awaited(buffered(*old(buf)), Wanted::Connect) {
            Outcome::Found(_, _) => {
                &&& r == Ok::<bool, Error>(true)
                &&& buffered(*final(buf)) == connack_packet()
            },
            Outcome::Waiting(rest) => {
                &&& r == Ok::<bool, Error>(false)
                &&& buffered(*final(buf)) == rest
            },
            Outcome::Failed(e, rest) => {
                &&& r == Err::<bool, Error>(Error::MQTT(e))
                &&& buffered(*final(buf)) == rest
            },
        },
{
    match await_packet(buf, Wanted::Connect) {
        Ok(Some(_)) => {},
        Ok(None) => return Ok(false),
        Err(e) => return Err(e),
    }
    buf.clear();
    match write_connack(ConnectReturnCode::Success, false, buf) {
        Ok(()) => {
            assert(buffered(*buf) == connack_packet());
            Ok(true)
        },
        Err(e) => Err(Error::MQTT(e)),
    }
}

/// What can happen to a connection that has been answered.
pub enum ConnectionEvent<S> {
    /// What [`Connection::accept_stream`] gave.
    Stream(Result<S, Error>),
    /// One of its streams, or what came of one, asked for the end of the connection.
    Close,
}

/// Decides what a connection does next: a new stream is handled, a connection that is to be closed
/// is done, and a stream that could not be accepted ends it with that error.
pub fn connection_step<S>(event: ConnectionEvent<S>) -> (r: Result<Option<S>, Error>)
    ensures
        match event {
            ConnectionEvent::Stream(Ok(stream)) => r == Ok::<Option<S>, Error>(Some(stream)),
            ConnectionEvent::Stream(Err(e)) => r == Err::<Option<S>, Error>(e),
            ConnectionEvent::Close => r == Ok::<Option<S>, Error>(None),
        },
{
    match event {
        ConnectionEvent::Stream(Ok(stream)) => Ok(Some(stream)),
        ConnectionEvent::Stream(Err(e)) => Err(e),
        ConnectionEvent::Close => Ok(None),
    }
}

/// What a new stream is for.
#[derive(Debug)]
pub enum Purpose {
    /// It brings the publishes of a topic.
    Publish(String),
    /// It takes the publishes of a topic.
    Subscribe(String),
    /// It subscribes to no topic, and is done.
    Done,
    /// It asks for the end of the connection, and goes on.
    Disconnect,
}

/// What is done for the packet that says what a new stream is for. The payload of a PUBLISH packet
/// is dropped, as there are no subscribers yet. Of the topics of a SUBSCRIBE packet the first one
/// counts. Packets that say nothing of a stream have no purpose.
pub open spec fn purpose_of(packet: PacketView) -> Option<PurposeView> {
    match packet {
        PacketView::Publish { topic, payload: _ } => Some(PurposeView::Publish(topic)),
        PacketView::Subscribe { filters } => if filters.len() == 0 {
            Some(PurposeView::Done)
        } else {
            Some(PurposeView::Subscribe(filters[0]))
        },
        PacketView::Disconnect => Some(PurposeView::Disconnect),
        _ => None,
    }
}

/// A `Purpose` with its topic as a sequence.
pub enum PurposeView {
    Publish(Seq<char>),
    Subscribe(Seq<char>),
    Done,
    Disconnect,
}

impl View for Purpose {
    type V = PurposeView;

    open spec fn view(&self) -> PurposeView {
        match *self {
            Purpose::Publish(topic) => PurposeView::Publish(topic@),
            Purpose::Subscribe(topic) => PurposeView::Subscribe(topic@),
            Purpose::Done => PurposeView::Done,
            Purpose::Disconnect => PurposeView::Disconnect,
        }
    }
}

/// What a new stream is for, from a packet that came in on it.
pub fn purpose(packet: Packet) -> (r: Option<Purpose>)
    ensures
        match (r, purpose_of(packet@)) {
            (Some(p), Some(expected)) => p@ == expected,
            (None, None) => true,
            _ => false,
        },
{
    match packet {
        Packet::Publish { topic, payload: _ } => Some(Purpose::Publish(topic)),
        Packet::Subscribe { filters } => {
            // only handling a single subscribe, as a client only sends 1 subscribe at a time
            if filters.len() == 0 {
                Some(Purpose::Done)
            } else {
                Some(Purpose::Subscribe(filters[0].clone()))
            }
        },
        Packet::Disconnect => Some(Purpose::Disconnect),
        _ => None,
    }
}

/// Waits for the packet that says what a new stream is for. Other packets are passed over; where
/// it is not there yet, more bytes have to come in.
pub fn handle_new_stream(buf: &mut BytesMut) -> (r: Result<Option<Purpose>, Error>)
    ensures
        match awaited(buffered(*old(buf)), Wanted::Purpose) {
            Outcome::Found(packet, rest) => {
                &&& r matches Ok(Some(p)) && purpose_of(packet) == Some(p@)
                &&& buffered(*final(buf)) == rest
            },
            Outcome::Waiting(rest) => {
                &&& r matches Ok(None)
                &&& buffered(*final(buf)) == rest
            },
            Outcome::Failed(e, rest) => {
                &&& r == Err::<Option<Purpose>, Error>(Error::MQTT(e))
                &&& buffered(*final(buf)) == rest
            },
        },
{
    match await_packet(buf, Wanted::Purpose) {
        Ok(Some(packet)) => Ok(purpose(packet)),
        Ok(None) => Ok(None),
        Err(e) => Err(e),
    }
}

/// Decides what follows from sending the request of a subscriber to the publish streams of its
/// topic. Streams that are gone are passed over; where all of them are, the subscribe stream ends
/// with the error of the first.
pub fn requested(sent: Vec<Result<(), flume::TrySendError<()>>>) -> (r: Result<(), Error>)
    ensures
        if sent@.len() > 0 && forall|i: int| 0 <= i < sent@.len() ==> #[trigger] sent@[i] is Err {
            r == Err::<(), Error>(Error::PubNotifTx(sent@[0]->Err_0))
        } else {
            r == Ok::<(), Error>(())
        },
{
    let mut i: usize = 0;
    while i < sent.len()
        invariant
            0 <= i <= sent@.len(),
            forall|j: int| 0 <= j < i ==> #[trigger] sent@[j] is Err,
        decreases sent@.len() - i,
    {
        if sent[i].is_ok() {
            return Ok(());
        }
        i += 1;
    }
    if sent.len() == 0 {
        return Ok(());
    }
    let mut sent = sent;
    match sent.swap_remove(0) {
        Ok(()) => Ok(()),
        Err(e) => Err(Error::PubNotifTx(e)),
    }
}

/// The SUBACK packet that a subscribe stream is answered with.
pub fn handle_subscribe() -> (r: Result<BytesMut, Error>)
    ensures
        r matches Ok(buf) && buffered(buf) == suback_packet(),
{
    let mut buf = BytesMut::with_capacity(BUFFER_CAPACITY);
    match write_suback(0, QoS::AtMostOnce, &mut buf) {
        Ok(()) => {
            assert(buffered(buf) == suback_packet());
            Ok(buf)
        },
        Err(e) => Err(Error::MQTT(e)),
    }
}

/// What can happen on a subscribe stream that has been answered.
pub enum SubscribeEvent {
    /// What its data channel gave.
    Data(Result<Bytes, flume::RecvError>),
    /// Bytes came in from the client, and are in the buffer.
    Read,
}

/// What a subscribe stream does next.
#[derive(Debug)]
pub enum SubscribeAction {
    /// Send these bytes to the client.
    Send(Bytes),
    /// Nothing.
    Wait,
    /// The stream is done.
    Stop,
}

/// Decides what follows from one attempt to read a packet that the client sent on a subscribe
/// stream: an UNSUBSCRIBE packet ends the stream, every other packet is passed over, and so is a
/// packet that is not there as a whole.
pub fn control(read: Result<Packet, MqttError>) -> (r: Result<SubscribeAction, Error>)
    ensures
        match read {
            Ok(Packet::Unsubscribe) => r == Ok::<SubscribeAction, Error>(SubscribeAction::Stop),
            Ok(_) => r == Ok::<SubscribeAction, Error>(SubscribeAction::Wait),
            Err(MqttError::InsufficientBytes(_)) => r == Ok::<SubscribeAction, Error>(
                SubscribeAction::Wait,
            ),
            Err(e) => r == Err::<SubscribeAction, Error>(Error::MQTT(e)),
        },
{
    match read {
        Ok(Packet::Unsubscribe) => Ok(SubscribeAction::Stop),
        Ok(_) => Ok(SubscribeAction::Wait),
        Err(MqttError::InsufficientBytes(_)) => Ok(SubscribeAction::Wait),
        Err(e) => Err(Error::MQTT(e)),
    }
}

/// Decides what a subscribe stream does next. Publishes are sent on as they are; a data channel
/// without a publisher ends the stream with an error. Of what the client sent, one packet is read
/// at a time.
pub fn subscribe_step(event: SubscribeEvent, buf: &mut BytesMut) -> (r: Result<
    SubscribeAction,
    Error,
>)
    ensures
        match event {
            SubscribeEvent::Data(Ok(data)) => {
                &&& r == Ok::<SubscribeAction, Error>(SubscribeAction::Send(data))
                &&& buffered(*final(buf)) == buffered(*old(buf))
            },
            SubscribeEvent::Data(Err(e)) => {
                &&& r == Err::<SubscribeAction, Error>(Error::PubNotifRx(e))
                &&& buffered(*final(buf)) == buffered(*old(buf))
            },
            SubscribeEvent::Read => {
                &&& buffered(*final(buf)) == packet_rest(
                    buffered(*old(buf)),
                    MAX_PACKET_SIZE as int,
                )
                &&& match packet_read(buffered(*old(buf)), MAX_PACKET_SIZE as int) {
                    Ok(PacketView::Unsubscribe) => r == Ok::<SubscribeAction, Error>(
                        SubscribeAction::Stop,
                    ),
                    Ok(_) => r == Ok::<SubscribeAction, Error>(SubscribeAction::Wait),
                    Err(MqttError::InsufficientBytes(_)) => r == Ok::<SubscribeAction, Error>(
                        SubscribeAction::Wait,
                    ),
                    Err(e) => r == Err::<SubscribeAction, Error>(Error::MQTT(e)),
                }
            },
        },
{
    match event {
        SubscribeEvent::Data(Ok(data)) => Ok(SubscribeAction::Send(data)),
        SubscribeEvent::Data(Err(e)) => Err(Error::PubNotifRx(e)),
        SubscribeEvent::Read => control(read_packet(buf, MAX_PACKET_SIZE)),
    }
}

} // verus!
