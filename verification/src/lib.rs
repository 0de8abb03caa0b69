//! MQTT over QUIC: the protocol logic of a publish/subscribe server and its client.
//!
//! Everything here works on buffers that have already been read from a stream, or that are about
//! to be written to one. Opening endpoints, awaiting streams and sending on channels is left to
//! the program around the library.

pub mod buffer;
pub mod client;
pub mod config;
pub mod error;
pub mod inbound;
pub mod laws;
pub mod packet;
pub mod protocol;
pub mod registry;
pub mod relay;
pub mod server;
pub mod subscribers;

pub use crate::buffer::recv_stream_read;
pub use crate::client::{Client, Publisher, Subscriber};
pub use crate::config::{Auth, Config};
pub use crate::error::{Error, MqttError};
pub use crate::protocol::MQTTRead;
pub use crate::server::{server, Connection, QuicServer};
