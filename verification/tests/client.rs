use bytes::{Bytes, BytesMut};
use mquictt::client::{Client, Subscriber};
use mquictt::inbound::{await_packet, sort, Step, Wanted};
use mquictt::packet::{read_packet, Packet, MAX_PACKET_SIZE};
use mquictt::{Error, MqttError};

fn buffer(bytes: &[u8]) -> BytesMut {
    let mut buf = BytesMut::new();
    buf.extend_from_slice(bytes);
    buf
}

#[test]
fn connect_packet_is_exact() {
    let buf = Client::connect("ab").unwrap();
    assert_eq!(
        &buf[..],
        &[0x10, 14, 0, 4, b'M', b'Q', b'T', b'T', 4, 2, 0, 10, 0, 2, b'a', b'b']
    );
}

#[test]
fn client_waits_for_the_connack() {
    let mut buf = buffer(&[]);
    assert!(matches!(Client::connected(&mut buf), Ok(false)));
    // a PINGRESP is passed over
    let mut buf = buffer(&[0xD0, 0, 0x20, 2, 0]);
    assert!(matches!(Client::connected(&mut buf), Ok(false)));
    assert_eq!(&buf[..], &[0x20, 2, 0]);
    buf.extend_from_slice(&[0, 9]);
    assert!(matches!(Client::connected(&mut buf), Ok(true)));
    assert_eq!(&buf[..], &[9]);
}

#[test]
fn client_fails_on_wrong_packets() {
    let mut buf = buffer(&[0xF0, 0]);
    assert!(matches!(
        Client::connected(&mut buf),
        Err(Error::MQTT(MqttError::Content(
            mqttbytes::Error::InvalidPacketType(15)
        )))
    ));
    let mut buf = buffer(&[0x30, 0x80, 0x80, 0x80, 0x80]);
    assert!(matches!(
        Client::subscribed(&mut buf),
        Err(Error::MQTT(MqttError::MalformedRemainingLength))
    ));
}

#[test]
fn publisher_opens_its_stream_with_the_first_payload() {
    let (opening, publisher) =
        Client::publisher("hello/world".to_string(), Bytes::from_static(b"hello")).unwrap();
    assert_eq!(&opening[..], b"\x30\x12\x00\x0bhello/worldhello");
    assert_eq!(publisher.topic(), "hello/world");
    assert!(publisher.unflushed().is_empty());
}

#[test]
fn publishes_wait_for_a_flush() {
    let (_, mut publisher) =
        Client::publisher("t".to_string(), Bytes::from_static(b"init")).unwrap();
    publisher.publish(Bytes::from_static(b"one")).unwrap();
    publisher.publish(Bytes::from_static(b"")).unwrap();
    assert_eq!(
        publisher.unflushed(),
        b"\x30\x06\x00\x01tone\x30\x03\x00\x01t"
    );
    publisher.flush();
    assert!(publisher.unflushed().is_empty());
    assert_eq!(publisher.topic(), "t");
    publisher.publish(Bytes::from_static(b"two")).unwrap();
    assert_eq!(publisher.unflushed(), b"\x30\x06\x00\x01ttwo");
}

#[test]
fn payloads_that_fit_no_packet_are_refused() {
    let (_, mut publisher) = Client::publisher("t".to_string(), Bytes::new()).unwrap();
    let payload = Bytes::from(vec![0u8; 268_435_453]);
    assert!(matches!(
        publisher.publish(payload.clone()),
        Err(Error::MQTT(MqttError::PayloadTooLong))
    ));
    assert!(publisher.unflushed().is_empty());
    publisher.publish(Bytes::from_static(b"x")).unwrap();
    assert_eq!(publisher.unflushed(), b"\x30\x04\x00\x01tx");
    assert!(publisher.publish(payload.clone()).is_err());
    assert_eq!(publisher.unflushed(), b"\x30\x04\x00\x01tx");
    assert!(matches!(
        Client::publisher("t".to_string(), payload),
        Err(Error::MQTT(MqttError::PayloadTooLong))
    ));
}

#[test]
fn subscribe_packet_is_exact() {
    let buf = Client::subscriber("hello/world").unwrap();
    assert_eq!(&buf[..], b"\x82\x10\x00\x00\x00\x0bhello/world\x00");
}

#[test]
fn subscriber_keeps_what_is_behind_the_suback() {
    let mut buf = buffer(b"\x90\x03\x00\x00\x00\x30\x05\x00\x01tab\x30\x04\x00\x01");
    assert!(matches!(Client::subscribed(&mut buf), Ok(true)));
    let mut subscriber = Subscriber::new(buf);
    assert_eq!(
        subscriber.read().unwrap().unwrap(),
        Bytes::from_static(b"ab")
    );
    assert!(subscriber.read().unwrap().is_none());
    assert_eq!(subscriber.receive(Ok(Some(b"tc"))).unwrap(), 2);
    assert_eq!(
        subscriber.read().unwrap().unwrap(),
        Bytes::from_static(b"c")
    );
    assert!(subscriber.read().unwrap().is_none());
    assert!(matches!(
        subscriber.receive(Ok(None)),
        Err(Error::ConnectionBroken)
    ));
    assert!(matches!(
        subscriber.receive(Err(quinn::ReadError::UnknownStream)),
        Err(Error::Read(quinn::ReadError::UnknownStream))
    ));
}

#[test]
fn subscriber_refuses_payloads_over_the_limit() {
    let mut subscriber = Subscriber::new(buffer(&[0x30, 0x81, 0x80, 0x40]));
    assert!(matches!(
        subscriber.read(),
        Err(Error::MQTT(MqttError::PayloadSizeLimitExceeded(1_048_577)))
    ));
    let mut subscriber = Subscriber::new(buffer(&[0x30, 0x80, 0x80, 0x40]));
    assert!(matches!(subscriber.read(), Ok(None)));
}

#[test]
fn close_replaces_what_came_in_by_a_disconnect() {
    let mut subscriber = Subscriber::new(buffer(b"\x30\x05\x00\x01tab"));
    subscriber.close().unwrap();
    assert_eq!(subscriber.outgoing(), &[0xE0, 0]);
}

#[test]
fn subscriber_reads_the_same_however_the_stream_is_cut() {
    let stream = b"\x30\x05\x00\x01tab\xd0\x00\x30\x04\x00\x01tc\x30\x03\x00\x01t";
    let mut whole = Subscriber::new(buffer(stream));
    let mut cut = Subscriber::new(BytesMut::new());
    let mut expected = Vec::new();
    while let Some(payload) = whole.read().unwrap() {
        expected.push(payload);
    }
    let mut got = Vec::new();
    for byte in stream.iter() {
        cut.receive(Ok(Some(&[*byte]))).unwrap();
        while let Some(payload) = cut.read().unwrap() {
            got.push(payload);
        }
    }
    assert_eq!(expected.len(), 3);
    assert_eq!(got, expected);
}

#[test]
fn packets_are_told_apart() {
    let mut buf = buffer(b"\x10\x0e\x00\x04MQTT\x04\x02\x00\x0a\x00\x02ab");
    assert!(matches!(
        read_packet(&mut buf, MAX_PACKET_SIZE),
        Ok(Packet::Connect)
    ));
    let mut buf = buffer(b"\x82\x0a\x00\x01\x00\x01a\x00\x00\x01b\x01");
    match read_packet(&mut buf, MAX_PACKET_SIZE) {
        Ok(Packet::Subscribe { filters }) => assert_eq!(filters, vec!["a", "b"]),
        other => panic!("{:?}", other),
    }
    let mut buf = buffer(b"\xa2\x05\x00\x01\x00\x01a");
    assert!(matches!(
        read_packet(&mut buf, MAX_PACKET_SIZE),
        Ok(Packet::Unsubscribe)
    ));
    let mut buf = buffer(b"\xc0\x00");
    assert!(matches!(
        read_packet(&mut buf, MAX_PACKET_SIZE),
        Ok(Packet::Other)
    ));
    let mut buf = buffer(b"\x30\x00");
    assert!(matches!(
        read_packet(&mut buf, MAX_PACKET_SIZE),
        Err(MqttError::Content(mqttbytes::Error::PayloadRequired))
    ));
    assert!(buf.is_empty());
}

#[test]
fn missing_bytes_are_counted() {
    let mut buf = buffer(b"\x30\x05\x00\x01t");
    assert!(matches!(
        read_packet(&mut buf, MAX_PACKET_SIZE),
        Err(MqttError::InsufficientBytes(2))
    ));
    assert_eq!(buf.len(), 5);
}

#[test]
fn only_what_is_wanted_is_found() {
    assert!(matches!(
        sort(Ok(Packet::SubAck), Wanted::ConnAck),
        Ok(Step::Skip)
    ));
    assert!(matches!(
        sort(Ok(Packet::SubAck), Wanted::SubAck),
        Ok(Step::Found(Packet::SubAck))
    ));
    assert!(matches!(
        sort(Err(MqttError::InsufficientBytes(3)), Wanted::Purpose),
        Ok(Step::More)
    ));
    assert!(matches!(
        sort(Err(MqttError::PayloadSizeLimitExceeded(9)), Wanted::Purpose),
        Err(Error::MQTT(MqttError::PayloadSizeLimitExceeded(9)))
    ));
    let mut buf = buffer(b"\xc0\x00\x20\x02\x00\x00\xd0\x00");
    assert!(matches!(
        await_packet(&mut buf, Wanted::ConnAck),
        Ok(Some(Packet::ConnAck))
    ));
    assert_eq!(&buf[..], b"\xd0\x00");
}

fn content(packet: &[u8]) -> Result<Packet, MqttError> {
    let mut buf = buffer(packet);
    let read = read_packet(&mut buf, MAX_PACKET_SIZE);
    assert!(buf.is_empty());
    read
}

#[test]
fn publishes_of_all_qualities_of_service_are_read() {
    match content(b"\x32\x06\x00\x01t\x00\x07x") {
        Ok(Packet::Publish { topic, payload }) => {
            assert_eq!(topic, "t");
            assert_eq!(payload, Bytes::from_static(b"x"));
        }
        other => panic!("{:?}", other),
    }
    match content(b"\x3d\x05\x00\x01t\x01\x00") {
        Ok(Packet::Publish { topic, payload }) => {
            assert_eq!(topic, "t");
            assert!(payload.is_empty());
        }
        other => panic!("{:?}", other),
    }
    assert!(matches!(
        content(b"\x32\x05\x00\x01t\x00\x00"),
        Err(MqttError::Content(mqttbytes::Error::PacketIdZero))
    ));
    assert!(matches!(
        content(b"\x32\x04\x00\x01t\x00"),
        Err(MqttError::Content(mqttbytes::Error::MalformedPacket))
    ));
    assert!(matches!(
        content(b"\x36\x05\x00\x01t\x00\x07"),
        Err(MqttError::Content(mqttbytes::Error::InvalidQoS(3)))
    ));
}

#[test]
fn pings_and_acknowledgements_are_other_packets() {
    for packet in [
        &b"\xc0\x00"[..],
        &b"\xd0\x00"[..],
        &b"\xd0\x01\x07"[..],
        &b"\x40\x02\x00\x07"[..],
        &b"\x50\x03\x00\x07\x00"[..],
        &b"\x62\x02\x00\x07"[..],
        &b"\x70\x05\x00\x07\x01\x02\x03"[..],
        &b"\xb0\x02\x00\x07"[..],
    ] {
        assert!(matches!(content(packet), Ok(Packet::Other)));
    }
    assert!(matches!(
        content(b"\x40\x01\x00"),
        Err(MqttError::Content(mqttbytes::Error::MalformedPacket))
    ));
    assert!(matches!(
        content(b"\xb0\x03\x00\x07\x00"),
        Err(MqttError::Content(mqttbytes::Error::PayloadSizeIncorrect))
    ));
}

#[test]
fn connects_may_bring_a_will_and_a_login() {
    for packet in [
        // no clean session, the other version of the protocol
        &b"\x10\x0d\x00\x04MQTT\x05\x00\x00\x0a\x00\x01a"[..],
        // a will of which the message is not UTF-8
        &b"\x10\x13\x00\x04MQTT\x04\x0e\x00\x0a\x00\x01a\x00\x01w\x00\x01\xff"[..],
        // a user name and a password
        &b"\x10\x13\x00\x04MQTT\x04\xc2\x00\x0a\x00\x01a\x00\x01u\x00\x01p"[..],
        // a password alone, and bytes behind it
        &b"\x10\x12\x00\x04MQTT\x04\x42\x00\x0a\x00\x01a\x00\x01p\x07\x07"[..],
    ] {
        assert!(matches!(content(packet), Ok(Packet::Connect)));
    }
    for packet in [
        // a quality of service for a will that is not there
        &b"\x10\x0d\x00\x04MQTT\x04\x0a\x00\x0a\x00\x01a"[..],
        // a will without a message
        &b"\x10\x10\x00\x04MQTT\x04\x06\x00\x0a\x00\x01a\x00\x01w"[..],
        // a will with no such quality of service
        &b"\x10\x13\x00\x04MQTT\x04\x1e\x00\x0a\x00\x01a\x00\x01w\x00\x01x"[..],
        // a user name that is not there
        &b"\x10\x0d\x00\x04MQTT\x04\x82\x00\x0a\x00\x01a"[..],
        // a version of the protocol that there is not
        &b"\x10\x0d\x00\x04MQTT\x03\x02\x00\x0a\x00\x01a"[..],
    ] {
        assert!(matches!(content(packet), Err(MqttError::Content(_))));
    }
}
