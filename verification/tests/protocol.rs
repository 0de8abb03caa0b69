use bytes::BytesMut;
use mquictt::buffer::recv_stream_read;
use mquictt::protocol::{length, packet_type, MQTTRead, PacketType};
use mquictt::{Error, MqttError};

fn buffer(bytes: &[u8]) -> BytesMut {
    let mut buf = BytesMut::new();
    buf.extend_from_slice(bytes);
    buf
}

/// A PUBLISH packet for a topic of fewer than 126 bytes, with a short payload.
fn publish(topic: &str, payload: &[u8]) -> Vec<u8> {
    let mut packet = vec![0x30, (2 + topic.len() + payload.len()) as u8, 0, topic.len() as u8];
    packet.extend_from_slice(topic.as_bytes());
    packet.extend_from_slice(payload);
    packet
}

#[test]
fn length_takes_one_to_four_bytes() {
    assert_eq!(length(&[0]), Ok((1, 0)));
    assert_eq!(length(&[127]), Ok((1, 127)));
    assert_eq!(length(&[0x80, 0x01]), Ok((2, 128)));
    assert_eq!(length(&[0xFF, 0x7F]), Ok((2, 16383)));
    assert_eq!(length(&[0x80, 0x80, 0x01]), Ok((3, 16384)));
    assert_eq!(length(&[0xFF, 0xFF, 0xFF, 0x7F]), Ok((4, 268_435_455)));
}

#[test]
fn length_leaves_what_follows() {
    assert_eq!(length(&[5, 0xFF, 0xFF]), Ok((1, 5)));
    assert_eq!(length(&[0x81, 0x02, 0x80]), Ok((2, 257)));
}

#[test]
fn length_waits_for_one_more_byte() {
    assert_eq!(length(&[]), Err(MqttError::InsufficientBytes(1)));
    assert_eq!(length(&[0x80]), Err(MqttError::InsufficientBytes(1)));
    assert_eq!(
        length(&[0x80, 0x80, 0x80]),
        Err(MqttError::InsufficientBytes(1))
    );
}

#[test]
fn length_of_five_bytes_is_malformed() {
    assert_eq!(
        length(&[0x80, 0x80, 0x80, 0x80, 0x01]),
        Err(MqttError::MalformedRemainingLength)
    );
    assert_eq!(
        length(&[0xFF, 0xFF, 0xFF, 0xFF]),
        Err(MqttError::MalformedRemainingLength)
    );
}

#[test]
fn packet_types_are_in_the_upper_half() {
    assert_eq!(packet_type(0x10), Ok(PacketType::Connect));
    assert_eq!(packet_type(0x3D), Ok(PacketType::Publish));
    assert_eq!(packet_type(0x82), Ok(PacketType::Subscribe));
    assert_eq!(packet_type(0xE0), Ok(PacketType::Disconnect));
    assert_eq!(packet_type(0x05), Err(MqttError::InvalidPacketType(0)));
    assert_eq!(packet_type(0xF0), Err(MqttError::InvalidPacketType(15)));
}

#[test]
fn publish_is_read_whole_and_the_rest_stays() {
    let packet = publish("hello/world", b"hello again!");
    let mut stream = packet.clone();
    stream.extend_from_slice(&[0x30, 0x80]);
    let mut buf = buffer(&stream);
    match MQTTRead::read(&mut buf) {
        Ok(MQTTRead::Publish(read)) => assert_eq!(&read[..], &packet[..]),
        other => panic!("{:?}", other),
    }
    assert_eq!(&buf[..], &[0x30, 0x80]);
    assert!(matches!(
        MQTTRead::read(&mut buf),
        Err(MqttError::InsufficientBytes(1))
    ));
    assert_eq!(&buf[..], &[0x30, 0x80]);
}

#[test]
fn reading_waits_for_a_fixed_header() {
    let mut buf = buffer(&[]);
    assert!(matches!(
        MQTTRead::read(&mut buf),
        Err(MqttError::InsufficientBytes(2))
    ));
    let mut buf = buffer(&[0x30]);
    assert!(matches!(
        MQTTRead::read(&mut buf),
        Err(MqttError::InsufficientBytes(1))
    ));
}

#[test]
fn disconnect_is_read() {
    let mut buf = buffer(&[0xE0, 0, 0x30]);
    assert!(matches!(
        MQTTRead::read(&mut buf),
        Ok(MQTTRead::Disconnect)
    ));
    assert_eq!(&buf[..], &[0x30]);
}

#[test]
fn wrong_packets_are_refused_and_gone() {
    let mut buf = buffer(&[0xF0, 1, 9, 7]);
    assert!(matches!(
        MQTTRead::read(&mut buf),
        Err(MqttError::InvalidPacketType(15))
    ));
    assert_eq!(&buf[..], &[7]);

    let mut buf = buffer(&[0x32, 3, 0, 1, b'a', 7]);
    assert!(matches!(
        MQTTRead::read(&mut buf),
        Err(MqttError::InvalidQoS(0))
    ));
    assert_eq!(&buf[..], &[7]);

    let mut buf = buffer(&[0x36, 3, 0, 1, b'a', 7]);
    assert!(matches!(
        MQTTRead::read(&mut buf),
        Err(MqttError::InvalidQoS(3))
    ));
    assert_eq!(&buf[..], &[7]);

    let mut buf = buffer(&[0x30, 0xFF, 0xFF, 0xFF, 0xFF]);
    assert!(matches!(
        MQTTRead::read(&mut buf),
        Err(MqttError::MalformedRemainingLength)
    ));
    assert_eq!(buf.len(), 5);
}

#[test]
fn topic_must_be_utf8() {
    for packet in [
        &[0x30, 6, 0, 4, 0xFF, 0xFE, b'c', b'd', 7][..],
        &[0x30, 3, 0, 1, 0xFF, 7][..],
        &[0x30, 4, 0, 2, b'a', 0xE6, 7][..],
    ] {
        let mut buf = buffer(packet);
        assert!(matches!(
            MQTTRead::read(&mut buf),
            Err(MqttError::TopicNotUtf8)
        ));
        assert_eq!(&buf[..], &[7]);
    }
}

#[test]
fn topics_of_all_characters_and_lengths_are_taken() {
    // one character of three bytes
    let mut buf = buffer(&[0x30, 5, 0, 3, 0xE6, 0x97, 0xA5]);
    assert!(matches!(MQTTRead::read(&mut buf), Ok(MQTTRead::Publish(_))));
    // 128 characters, and a payload that is not UTF-8
    let mut packet = vec![0x30, 0x83, 0x01, 0, 128];
    packet.extend_from_slice(&[b'a'; 128]);
    packet.push(0xFF);
    let mut buf = buffer(&packet);
    match MQTTRead::read(&mut buf) {
        Ok(MQTTRead::Publish(read)) => assert_eq!(&read[..], &packet[..]),
        other => panic!("{:?}", other),
    }
    // no topic at all
    let mut buf = buffer(&[0x30, 2, 0, 0]);
    assert!(matches!(MQTTRead::read(&mut buf), Ok(MQTTRead::Publish(_))));
}

#[test]
fn packet_that_is_not_whole_is_waited_for() {
    let packet = publish("hello/world", b"hello again!");
    for len in 2..packet.len() {
        let mut buf = buffer(&packet[..len]);
        match MQTTRead::read(&mut buf) {
            Err(MqttError::InsufficientBytes(more)) => assert_eq!(more, packet.len() - len),
            other => panic!("{:?}", other),
        }
        assert_eq!(&buf[..], &packet[..len]);
        buf.extend_from_slice(&packet[len..]);
        assert!(matches!(MQTTRead::read(&mut buf), Ok(MQTTRead::Publish(_))));
        assert!(buf.is_empty());
    }
}

#[test]
fn packets_too_short_for_their_topic_are_refused_and_gone() {
    let mut buf = buffer(&[0x30, 0, 7]);
    assert!(matches!(
        MQTTRead::read(&mut buf),
        Err(MqttError::PayloadRequired)
    ));
    assert_eq!(&buf[..], &[7]);

    let mut buf = buffer(&[0x30, 1, 0, 7]);
    assert!(matches!(
        MQTTRead::read(&mut buf),
        Err(MqttError::MalformedPacket)
    ));
    assert_eq!(&buf[..], &[7]);

    for topic_len in [2, 3, 255] {
        let mut buf = buffer(&[0x30, 3, 0, topic_len, b'a', 7]);
        match MQTTRead::read(&mut buf) {
            Err(MqttError::BoundaryCrossed(len)) => assert_eq!(len, topic_len as usize),
            other => panic!("{:?}", other),
        }
        assert_eq!(&buf[..], &[7]);
    }
}

#[test]
fn publishes_are_read_as_mqttbytes_reads_them() {
    for packet in [
        &[0x30, 0][..],
        &[0x30, 1, 0][..],
        &[0x30, 3, 0, 2, b'a'][..],
        &[0x30, 3, 0, 1, 0xFF][..],
        &[0x30, 5, 0, 3, 0xE6, 0x97, 0xA5][..],
        &[0x30, 5, 0, 3, 0xE6][..],
        &[0x3F, 3, 0, 1, b'a'][..],
    ] {
        let mut ours = buffer(packet);
        let mut theirs = buffer(packet);
        let read = MQTTRead::read(&mut ours);
        match (read, mqttbytes::v4::read(&mut theirs, 1024)) {
            (Ok(MQTTRead::Publish(_)), Ok(mqttbytes::v4::Packet::Publish(_))) => {}
            (Err(ours), Err(theirs)) => assert_eq!(format!("{:?}", ours), format!("{:?}", theirs)),
            other => panic!("{:?}", other),
        }
        assert_eq!(ours, theirs);
    }
}

#[test]
fn received_bytes_are_appended() {
    let mut buf = buffer(&[1, 2]);
    assert!(matches!(recv_stream_read(&mut buf, Ok(Some(&[3, 4, 5]))), Ok(3)));
    assert_eq!(&buf[..], &[1, 2, 3, 4, 5]);
    assert!(matches!(recv_stream_read(&mut buf, Ok(Some(&[]))), Ok(0)));
    assert_eq!(&buf[..], &[1, 2, 3, 4, 5]);
}

#[test]
fn end_of_stream_is_a_broken_connection() {
    let mut buf = buffer(&[1, 2]);
    assert!(matches!(
        recv_stream_read(&mut buf, Ok(None)),
        Err(Error::ConnectionBroken)
    ));
    assert_eq!(&buf[..], &[1, 2]);
}

#[test]
fn failed_read_leaves_the_buffer() {
    let mut buf = buffer(&[1, 2]);
    assert!(matches!(
        recv_stream_read(&mut buf, Err(quinn::ReadError::UnknownStream)),
        Err(Error::Read(quinn::ReadError::UnknownStream))
    ));
    assert_eq!(&buf[..], &[1, 2]);
}
