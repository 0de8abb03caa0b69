use bytes::{Bytes, BytesMut};
use mquictt::client::{Client, Subscriber};
use mquictt::packet::Packet;
use mquictt::server::{
    connection_handler, connection_step, control, handle_new_stream, handle_subscribe, purpose,
    requested, server, subscribe_step, Connection, ConnectionEvent, Purpose, QuicServer,
    SubscribeAction, SubscribeEvent,
};
use mquictt::{Error, MqttError};

fn buffer(bytes: &[u8]) -> BytesMut {
    let mut buf = BytesMut::new();
    buf.extend_from_slice(bytes);
    buf
}

#[test]
fn endpoint_without_more_connections_is_broken() {
    assert!(matches!(QuicServer::accept(Some(Ok(7))), Ok(7)));
    assert!(matches!(
        QuicServer::accept::<u8>(Some(Err(quinn::ConnectionError::TimedOut))),
        Err(Error::Connection(quinn::ConnectionError::TimedOut))
    ));
    assert!(matches!(
        QuicServer::accept::<u8>(None),
        Err(Error::ConnectionBroken)
    ));
}

#[test]
fn connection_without_more_streams_is_broken() {
    assert!(matches!(Connection::accept_stream(Some(Ok(7))), Ok(7)));
    assert!(matches!(
        Connection::accept_stream::<u8>(Some(Err(quinn::ConnectionError::Reset))),
        Err(Error::Connection(quinn::ConnectionError::Reset))
    ));
    assert!(matches!(
        Connection::accept_stream::<u8>(None),
        Err(Error::ConnectionBroken)
    ));
}

#[test]
fn server_ends_without_error_when_the_endpoint_is_broken() {
    assert!(matches!(server(Ok(7)), Ok(Some(7))));
    assert!(matches!(
        server::<u8>(Err(Error::ConnectionBroken)),
        Ok(None)
    ));
    assert!(matches!(
        server::<u8>(Err(Error::Connection(quinn::ConnectionError::TimedOut))),
        Err(Error::Connection(quinn::ConnectionError::TimedOut))
    ));
}

#[test]
fn connect_is_answered_with_a_connack() {
    let mut buf = Client::connect("0").unwrap();
    buf.extend_from_slice(b"more");
    assert!(matches!(connection_handler(&mut buf), Ok(true)));
    assert_eq!(&buf[..], &[0x20, 2, 0, 0]);
    assert!(matches!(Client::connected(&mut buf), Ok(true)));
    assert!(buf.is_empty());
}

#[test]
fn server_waits_for_the_connect() {
    let whole = Client::connect("0").unwrap();
    let mut buf = buffer(b"\xc0\x00");
    buf.extend_from_slice(&whole[..5]);
    assert!(matches!(connection_handler(&mut buf), Ok(false)));
    assert_eq!(&buf[..], &whole[..5]);
    buf.extend_from_slice(&whole[5..]);
    assert!(matches!(connection_handler(&mut buf), Ok(true)));
}

#[test]
fn wrong_protocol_ends_the_connection() {
    let mut buf = buffer(b"\x10\x0e\x00\x04MQTX\x04\x02\x00\x0a\x00\x02ab");
    assert!(matches!(
        connection_handler(&mut buf),
        Err(Error::MQTT(MqttError::Content(
            mqttbytes::Error::InvalidProtocol
        )))
    ));
}

#[test]
fn connection_goes_on_until_it_is_closed() {
    assert!(matches!(
        connection_step(ConnectionEvent::Stream(Ok(7))),
        Ok(Some(7))
    ));
    assert!(matches!(
        connection_step::<u8>(ConnectionEvent::Close),
        Ok(None)
    ));
    assert!(matches!(
        connection_step::<u8>(ConnectionEvent::Stream(Err(Error::ConnectionBroken))),
        Err(Error::ConnectionBroken)
    ));
}

#[test]
fn first_publish_names_the_topic_of_a_stream() {
    let (mut buf, _) =
        Client::publisher("hello/world".to_string(), Bytes::from_static(b"hello")).unwrap();
    buf.extend_from_slice(b"\x30\x04\x00\x01tx");
    match handle_new_stream(&mut buf) {
        Ok(Some(Purpose::Publish(topic))) => assert_eq!(topic, "hello/world"),
        other => panic!("{:?}", other),
    }
    assert_eq!(&buf[..], b"\x30\x04\x00\x01tx");
}

#[test]
fn subscribe_names_the_topic_of_a_stream() {
    let mut buf = Client::subscriber("hello/world").unwrap();
    match handle_new_stream(&mut buf) {
        Ok(Some(Purpose::Subscribe(topic))) => assert_eq!(topic, "hello/world"),
        other => panic!("{:?}", other),
    }
    assert!(buf.is_empty());
}

#[test]
fn first_of_several_topics_counts() {
    let filters = vec!["a".to_string(), "b".to_string()];
    match purpose(Packet::Subscribe { filters }) {
        Some(Purpose::Subscribe(topic)) => assert_eq!(topic, "a"),
        other => panic!("{:?}", other),
    }
    let mut buf = buffer(b"\x82\x0a\x00\x01\x00\x01c\x00\x00\x01d\x01");
    match handle_new_stream(&mut buf) {
        Ok(Some(Purpose::Subscribe(topic))) => assert_eq!(topic, "c"),
        other => panic!("{:?}", other),
    }
}

#[test]
fn subscribe_without_topics_is_done() {
    let mut buf = buffer(b"\x82\x02\x00\x01");
    assert!(matches!(
        handle_new_stream(&mut buf),
        Ok(Some(Purpose::Done))
    ));
}

#[test]
fn disconnect_ends_the_connection() {
    let mut subscriber = Subscriber::new(BytesMut::new());
    subscriber.close().unwrap();
    let mut buf = buffer(subscriber.outgoing());
    assert!(matches!(
        handle_new_stream(&mut buf),
        Ok(Some(Purpose::Disconnect))
    ));
}

#[test]
fn other_packets_say_nothing_of_a_stream() {
    assert!(purpose(Packet::SubAck).is_none());
    assert!(purpose(Packet::Other).is_none());
    let mut buf = buffer(b"\xc0\x00\xc0");
    assert!(matches!(handle_new_stream(&mut buf), Ok(None)));
    assert_eq!(&buf[..], b"\xc0");
}

#[test]
fn request_fails_where_all_publishers_are_gone() {
    let gone = || Err(flume::TrySendError::Disconnected(()));
    assert!(requested(vec![]).is_ok());
    assert!(requested(vec![Ok(())]).is_ok());
    assert!(requested(vec![gone(), Ok(()), gone()]).is_ok());
    assert!(matches!(
        requested(vec![Err(flume::TrySendError::Full(())), gone()]),
        Err(Error::PubNotifTx(flume::TrySendError::Full(())))
    ));
    assert!(matches!(
        requested(vec![gone()]),
        Err(Error::PubNotifTx(flume::TrySendError::Disconnected(())))
    ));
}

#[test]
fn subscribe_is_answered_with_a_suback() {
    let mut buf = handle_subscribe().unwrap();
    assert_eq!(&buf[..], &[0x90, 3, 0, 0, 0]);
    assert!(matches!(Client::subscribed(&mut buf), Ok(true)));
}

#[test]
fn publishes_are_sent_on_as_they_are() {
    let mut buf = buffer(b"\xa2");
    let data = Bytes::from_static(b"\x30\x04\x00\x01tx");
    match subscribe_step(SubscribeEvent::Data(Ok(data.clone())), &mut buf) {
        Ok(SubscribeAction::Send(sent)) => assert_eq!(sent, data),
        other => panic!("{:?}", other),
    }
    assert_eq!(&buf[..], b"\xa2");
    assert!(matches!(
        subscribe_step(
            SubscribeEvent::Data(Err(flume::RecvError::Disconnected)),
            &mut buf
        ),
        Err(Error::PubNotifRx(flume::RecvError::Disconnected))
    ));
}

#[test]
fn unsubscribe_ends_a_subscribe_stream() {
    let mut buf = buffer(b"\xc0\x00\xa2\x05\x00\x01\x00\x01a");
    assert!(matches!(
        subscribe_step(SubscribeEvent::Read, &mut buf),
        Ok(SubscribeAction::Wait)
    ));
    assert_eq!(&buf[..], b"\xa2\x05\x00\x01\x00\x01a");
    assert!(matches!(
        subscribe_step(SubscribeEvent::Read, &mut buf),
        Ok(SubscribeAction::Stop)
    ));
    assert!(buf.is_empty());
    assert!(matches!(
        subscribe_step(SubscribeEvent::Read, &mut buf),
        Ok(SubscribeAction::Wait)
    ));
}

#[test]
fn wrong_packets_end_a_subscribe_stream() {
    assert!(matches!(
        control(Err(MqttError::InsufficientBytes(1))),
        Ok(SubscribeAction::Wait)
    ));
    assert!(matches!(
        control(Err(MqttError::PayloadSizeLimitExceeded(2_000_000))),
        Err(Error::MQTT(MqttError::PayloadSizeLimitExceeded(2_000_000)))
    ));
    let mut buf = buffer(b"\xf0\x00");
    assert!(matches!(
        subscribe_step(SubscribeEvent::Read, &mut buf),
        Err(Error::MQTT(MqttError::Content(
            mqttbytes::Error::InvalidPacketType(15)
        )))
    ));
}
