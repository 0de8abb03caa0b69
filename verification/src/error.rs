//! The errors of the library.

use mqttbytes::Error as DecodeError;
use serde_json::Error as JsonError;
use sled::Error as DatabaseError;
use vstd::prelude::*;

verus! {

/// `std::io::Error`, carried through unread.
#[verifier::external_type_specification]
#[verifier::external_body]
pub struct ExIoError(std::io::Error);

/// `quinn::EndpointError`, carried through unread.
#[verifier::external_type_specification]
#[verifier::external_body]
pub struct ExEndpointError(quinn::EndpointError);

/// `quinn::ConnectionError`, carried through unread.
#[verifier::external_type_specification]
#[verifier::external_body]
pub struct ExConnectionError(quinn::ConnectionError);

/// `quinn::ConnectError`, carried through unread.
#[verifier::external_type_specification]
#[verifier::external_body]
pub struct ExConnectError(quinn::ConnectError);

/// `quinn::WriteError`, carried through unread.
#[verifier::external_type_specification]
#[verifier::external_body]
pub struct ExWriteError(quinn::WriteError);

/// `quinn::ReadError`, carried through unread.
#[verifier::external_type_specification]
#[verifier::external_body]
pub struct ExReadError(quinn::ReadError);

/// `rustls::TLSError`, carried through unread.
#[verifier::external_type_specification]
#[verifier::external_body]
pub struct ExTlsError(rustls::TLSError);

/// `flume::TrySendError`, carried through unread.
#[verifier::external_type_specification]
#[verifier::external_body]
#[verifier::reject_recursive_types(T)]
pub struct ExTrySendError<T>(flume::TrySendError<T>);

/// `flume::RecvError`, carried through unread.
#[verifier::external_type_specification]
#[verifier::external_body]
pub struct ExRecvError(flume::RecvError);

/// `serde_json::Error`, carried through unread.
#[verifier::external_type_specification]
#[verifier::external_body]
pub struct ExJsonError(JsonError);

/// `sled::Error`, carried through unread.
#[verifier::external_type_specification]
#[verifier::external_body]
pub struct ExDatabaseError(DatabaseError);

/// `mqttbytes::Error`, carried through unread.
#[verifier::external_type_specification]
#[verifier::external_body]
pub struct ExDecodeError(DecodeError);

/// Why bytes could not be read as an MQTT packet, or a packet could not be written.
#[derive(Debug, Clone, Copy, PartialEq, Eq)]
pub enum MqttError {
    /// More bytes are needed to frame a packet. The argument is the least number of additional
    /// bytes needed to proceed.
    InsufficientBytes(usize),
    /// The remaining length runs on past its fourth byte.
    MalformedRemainingLength,
    /// The remaining length is over the limit that the reader was given.
    PayloadSizeLimitExceeded(usize),
    /// The packet is too long for its remaining length to be written in four bytes.
    PayloadTooLong,
    /// The first byte names no packet type.
    InvalidPacketType(u8),
    /// The quality of service is none that the reader takes.
    InvalidQoS(u8),
    /// The topic is not UTF-8.
    TopicNotUtf8,
    /// There is nothing in a packet that must hold something.
    PayloadRequired,
    /// The packet ends where it announces more.
    MalformedPacket,
    /// A string in the packet is longer than what is left of the packet.
    BoundaryCrossed(usize),
    /// A packet was framed, and `mqttbytes` refused what is in it.
    Content(DecodeError),
}

/// A single enum for all the errors that can happen in `mquictt`.
#[derive(Debug)]
pub enum Error {
    /// An IO error occured, happens when creating a socket or reading a file.
    Io(std::io::Error),
    /// QUIC endpoint error.
    Endpoint(quinn::EndpointError),
    /// QUIC connection error, happens while reading/writing to connection. Different from
    /// [`Connect`] which happens when trying to connect for the first time.
    ///
    /// [`Connect`]: Error::Connect
    Connection(quinn::ConnectionError),
    /// QUIC error when connecting to the server.
    Connect(quinn::ConnectError),
    /// QUIC error when writing to stream.
    Write(quinn::WriteError),
    /// QUIC error when reading from stream.
    Read(quinn::ReadError),
    /// Connection was abruptly broken.
    ConnectionBroken,
    /// MQTT packet parsing error.
    MQTT(MqttError),
    /// Authentication error.
    Rustls(rustls::TLSError),
    /// Missing certificate.
    MissingCertificate,
    /// Unable to send publish packets to the subscriber.
    PubNotifTx(flume::TrySendError<()>),
    /// Unable to recv publish packets from the publisher.
    PubNotifRx(flume::RecvError),
    /// Unable to parse the config.
    ConfigParse(JsonError),
    /// Error when interacting with database.
    Sled(DatabaseError),
}

} // verus!
