use std::sync::Arc;

use bytes::{Bytes, BytesMut};
use mquictt::client::{Client, Subscriber};
use mquictt::registry::{data_channel, Registry};
use mquictt::relay::{Relay, SendOutcome};
use mquictt::{Error, MqttError};

fn buffer(bytes: &[u8]) -> BytesMut {
    let mut buf = BytesMut::new();
    buf.extend_from_slice(bytes);
    buf
}

/// The keys of those that a publish is sent to.
fn keys(relay: &mut Relay) -> Vec<usize> {
    let mut buf = buffer(b"\x30\x04\x00\x01tx");
    let relayed = relay.read(&mut buf).unwrap();
    relayed.deliveries.iter().map(|d| d.key).collect()
}

fn message(data_rx: &flume::Receiver<Bytes>) -> Bytes {
    data_rx.try_recv().unwrap()
}

#[test]
fn new_topic_gets_a_channel() {
    let mut registry = Registry::new();
    assert!(registry.requests("a").is_none());
    let (_, requests, subscribers) = registry.publish("a".to_string());
    assert!(subscribers.is_empty());
    assert!(registry.requests("b").is_none());

    let (data_tx, data_rx) = data_channel();
    registry.subscribe("a".to_string(), data_tx.clone());
    assert_eq!(registry.requests("a").unwrap().len(), 1);
    registry.requests("a").unwrap()[0].send(data_tx).unwrap();
    let subscriber = requests.recv().unwrap();
    subscriber.send(Bytes::from_static(b"x")).unwrap();
    assert_eq!(message(&data_rx), Bytes::from_static(b"x"));
}

#[test]
fn channels_hold_1024_messages() {
    let mut registry = Registry::new();
    let (_, _requests, _) = registry.publish("a".to_string());
    assert_eq!(registry.requests("a").unwrap()[0].capacity(), Some(1024));
    registry.expect("b".to_string());
    assert_eq!(registry.requests("b").unwrap()[0].capacity(), Some(1024));
    let (data_tx, _data_rx) = data_channel();
    assert_eq!(data_tx.capacity(), Some(1024));
}

#[test]
fn subscriber_that_comes_first_waits_for_the_publisher() {
    let mut registry = Registry::new();
    let (data_tx, data_rx) = data_channel();
    registry.subscribe("a".to_string(), data_tx.clone());
    registry.requests("a").unwrap()[0].send(data_tx).unwrap();
    assert!(!data_rx.is_disconnected());

    let (_, requests, subscribers) = registry.publish("a".to_string());
    // its request is in the channel, and so it is not handed over as well
    assert!(subscribers.is_empty());
    let subscriber = requests.try_recv().unwrap();
    assert!(requests.try_recv().is_err());
    subscriber.send(Bytes::from_static(b"x")).unwrap();
    assert_eq!(message(&data_rx), Bytes::from_static(b"x"));
}

#[test]
fn topic_can_have_several_publishers() {
    let mut registry = Registry::new();
    let (_, first, _) = registry.publish("a".to_string());
    let (early_tx, early_rx) = data_channel();
    registry.subscribe("a".to_string(), early_tx.clone());
    for requests in registry.requests("a").unwrap() {
        requests.send(early_tx.clone()).unwrap();
    }

    // the second one gets the subscriber that is there already
    let (_, second, subscribers) = registry.publish("a".to_string());
    assert_eq!(subscribers.len(), 1);
    assert!(second.is_empty());
    let mut relay = Relay::new(subscribers);
    let mut buf = buffer(b"\x30\x04\x00\x01ax");
    for delivery in relay.read(&mut buf).unwrap().deliveries {
        delivery.subscriber.send(delivery.publish).unwrap();
    }
    assert_eq!(message(&early_rx), Bytes::from_static(b"\x30\x04\x00\x01ax"));
    assert!(early_rx.try_recv().is_err());

    // and both get those that come later
    let (late_tx, late_rx) = data_channel();
    registry.subscribe("a".to_string(), late_tx.clone());
    assert_eq!(registry.requests("a").unwrap().len(), 2);
    for requests in registry.requests("a").unwrap() {
        requests.send(late_tx.clone()).unwrap();
    }
    assert_eq!(first.len(), 2);
    assert_eq!(second.len(), 1);
    for requests in [first, second] {
        let last = requests.try_iter().last().unwrap();
        last.send(Bytes::from_static(b"y")).unwrap();
        assert_eq!(message(&late_rx), Bytes::from_static(b"y"));
    }
    drop(late_tx);
}

#[test]
fn subscriber_that_left_is_forgotten() {
    let mut registry = Registry::new();
    let (_, _requests, _) = registry.publish("a".to_string());
    let (tx1, rx1) = data_channel();
    let (tx2, rx2) = data_channel();
    let key1 = registry.subscribe("a".to_string(), tx1);
    let key2 = registry.subscribe("a".to_string(), tx2);
    assert_ne!(key1, key2);
    registry.leave("a", key1);
    registry.leave("a", key1);
    registry.leave("b", key2);
    assert!(rx1.is_disconnected());
    assert!(!rx2.is_disconnected());
    let (_, _second, subscribers) = registry.publish("a".to_string());
    assert_eq!(subscribers.len(), 1);
    subscribers[0].send(Bytes::from_static(b"x")).unwrap();
    assert_eq!(message(&rx2), Bytes::from_static(b"x"));
}

#[test]
fn subscribers_end_with_the_last_publisher() {
    let mut registry = Registry::new();
    let (first, first_rx, _) = registry.publish("a".to_string());
    let (second, second_rx, _) = registry.publish("a".to_string());
    assert_eq!((first, second), (0, 1));
    let (data_tx, data_rx) = data_channel();
    let key = registry.subscribe("a".to_string(), data_tx);

    drop(first_rx);
    registry.end("a", first);
    registry.end("a", first);
    assert!(!data_rx.is_disconnected());
    drop(second_rx);
    registry.end("a", second);
    assert!(data_rx.is_disconnected());

    // its key is not given to another before it has left
    let (data_tx, _next_rx) = data_channel();
    let next = registry.subscribe("a".to_string(), data_tx.clone());
    assert_ne!(next, key);
    for requests in registry.requests("a").unwrap() {
        assert!(requests.send(data_tx.clone()).is_err());
    }
    registry.leave("a", key);
    assert_eq!(registry.subscribe("a".to_string(), data_tx), key);

    // and the next publisher finds those that are there
    let (third, _third_rx, subscribers) = registry.publish("a".to_string());
    assert_eq!(third, 2);
    assert_eq!(subscribers.len(), 2);
}

#[test]
fn parked_subscribers_wait_for_a_publisher_to_end() {
    let mut registry = Registry::new();
    let (data_tx, data_rx) = data_channel();
    registry.subscribe("a".to_string(), data_tx);
    registry.end("a", 0);
    registry.end("b", 0);
    assert!(!data_rx.is_disconnected());
    let (stream, _requests, _) = registry.publish("a".to_string());
    assert_eq!(stream, 0);
    registry.end("a", stream);
    assert!(data_rx.is_disconnected());
}

#[test]
fn topics_do_not_disturb_each_other() {
    let mut registry = Registry::new();
    let (_, a, _) = registry.publish("a".to_string());
    registry.expect("b".to_string());
    let (_, c, _) = registry.publish("c".to_string());

    let (data_tx, _data_rx) = data_channel();
    registry.requests("a").unwrap()[0].send(data_tx).unwrap();
    assert_eq!(a.len(), 1);
    assert_eq!(c.len(), 0);
    assert!(registry.publish("b".to_string()).1.is_empty());
}

#[test]
fn expecting_a_known_topic_changes_nothing() {
    let mut registry = Registry::new();
    let (_, requests, _) = registry.publish("a".to_string());
    registry.expect("a".to_string());
    assert!(!requests.is_disconnected());
    assert_eq!(registry.requests("a").unwrap().len(), 1);

    registry.expect("b".to_string());
    let (data_tx, _data_rx) = data_channel();
    registry.requests("b").unwrap()[0].send(data_tx).unwrap();
    registry.expect("b".to_string());
    assert_eq!(registry.publish("b".to_string()).1.len(), 1);
}

#[test]
fn relay_starts_with_the_subscribers_that_there_are() {
    let (tx1, rx1) = data_channel();
    let (tx2, rx2) = data_channel();
    let mut relay = Relay::new(vec![Arc::new(tx1), Arc::new(tx2)]);
    assert_eq!(keys(&mut relay), vec![0, 1]);
    let mut buf = buffer(b"\x30\x04\x00\x01ax");
    for delivery in relay.read(&mut buf).unwrap().deliveries {
        delivery.subscriber.send(delivery.publish).unwrap();
    }
    assert_eq!(message(&rx1), message(&rx2));
}

#[test]
fn each_subscriber_gets_each_publish_once() {
    let (_, mut publisher) = Client::publisher("t".to_string(), Bytes::new()).unwrap();
    let mut relay = Relay::new(Vec::new());
    assert!(!relay.sending());

    // no subscribers yet
    publisher.publish(Bytes::from_static(b"lost")).unwrap();
    let mut buf = buffer(publisher.unflushed());
    publisher.flush();
    let relayed = relay.read(&mut buf).unwrap();
    assert!(relayed.deliveries.is_empty());
    assert!(!relayed.disconnect);
    assert!(!relay.sending());
    assert!(buf.is_empty());

    let (tx1, rx1) = data_channel();
    let (tx2, rx2) = data_channel();
    assert!(relay.subscribe(Some(tx1)));
    assert!(relay.subscribe(Some(tx2)));
    publisher.publish(Bytes::from_static(b"one")).unwrap();
    publisher.publish(Bytes::from_static(b"two")).unwrap();
    let mut buf = buffer(publisher.unflushed());
    let relayed = relay.read(&mut buf).unwrap();
    assert!(relay.sending());
    let keys: Vec<usize> = relayed.deliveries.iter().map(|d| d.key).collect();
    assert_eq!(keys, vec![0, 1, 0, 1]);

    for delivery in relayed.deliveries {
        delivery.subscriber.send(delivery.publish).unwrap();
        relay.sent(SendOutcome::Sent);
    }
    relay.sent(SendOutcome::Empty);
    assert!(!relay.sending());

    for rx in [rx1, rx2] {
        let mut subscriber = Subscriber::new(BytesMut::new());
        for publish in rx.try_iter() {
            subscriber.receive(Ok(Some(&publish))).unwrap();
        }
        assert_eq!(
            subscriber.read().unwrap().unwrap(),
            Bytes::from_static(b"one")
        );
        assert_eq!(
            subscriber.read().unwrap().unwrap(),
            Bytes::from_static(b"two")
        );
        assert!(subscriber.read().unwrap().is_none());
    }
}

#[test]
fn subscriber_that_is_gone_gets_no_more() {
    let mut relay = Relay::new(Vec::new());
    let (tx1, rx1) = data_channel();
    let (tx2, _rx2) = data_channel();
    relay.subscribe(Some(tx1));
    relay.subscribe(Some(tx2));
    drop(rx1);

    let mut buf = buffer(b"\x30\x04\x00\x01tx");
    let relayed = relay.read(&mut buf).unwrap();
    assert_eq!(relayed.deliveries.len(), 2);
    assert!(relayed.deliveries[0]
        .subscriber
        .send(relayed.deliveries[0].publish.clone())
        .is_err());
    assert_eq!(keys(&mut relay), vec![0, 1]);
    relay.sent(SendOutcome::Failed(0));
    assert_eq!(keys(&mut relay), vec![1]);
    relay.sent(SendOutcome::Failed(0));
    assert_eq!(keys(&mut relay), vec![1]);
    assert!(relay.sending());

    let mut buf = buffer(b"\x30\x04\x00\x01ty");
    let relayed = relay.read(&mut buf).unwrap();
    assert_eq!(relayed.deliveries.len(), 1);
    assert_eq!(relayed.deliveries[0].key, 1);

    // a key that is free is given to the next subscriber
    let (tx3, _rx3) = data_channel();
    relay.subscribe(Some(tx3));
    assert_eq!(keys(&mut relay), vec![0, 1]);
}

#[test]
fn stream_ends_with_the_request_channel() {
    let mut relay = Relay::new(Vec::new());
    assert!(!relay.subscribe(None));
    assert!(keys(&mut relay).is_empty());
}

#[test]
fn deliveries_share_the_subscriber() {
    let mut relay = Relay::new(Vec::new());
    let (tx, _rx) = data_channel();
    relay.subscribe(Some(tx));
    let mut buf = buffer(b"\x30\x04\x00\x01tx\x30\x04\x00\x01ty");
    let relayed = relay.read(&mut buf).unwrap();
    assert!(Arc::ptr_eq(
        &relayed.deliveries[0].subscriber,
        &relayed.deliveries[1].subscriber
    ));
    assert_eq!(
        relayed.deliveries[1].publish,
        Bytes::from_static(b"\x30\x04\x00\x01ty")
    );
}

#[test]
fn bytes_that_are_left_wait_for_more() {
    let mut relay = Relay::new(Vec::new());
    let (tx, _rx) = data_channel();
    relay.subscribe(Some(tx));
    let mut buf = buffer(b"\x30\x04\x00\x01tx\x30\x80");
    assert_eq!(relay.read(&mut buf).unwrap().deliveries.len(), 1);
    assert_eq!(&buf[..], b"\x30\x80");
}

#[test]
fn disconnect_on_a_publish_stream_is_noticed() {
    let mut relay = Relay::new(Vec::new());
    let (tx, _rx) = data_channel();
    relay.subscribe(Some(tx));
    let mut buf = buffer(b"\x30\x04\x00\x01tx\xe0\x00");
    let relayed = relay.read(&mut buf).unwrap();
    assert!(relayed.disconnect);
    assert_eq!(relayed.deliveries.len(), 1);
    assert!(buf.is_empty());
}

#[test]
fn wrong_packets_end_a_publish_stream() {
    let mut relay = Relay::new(Vec::new());
    let (tx, _rx) = data_channel();
    relay.subscribe(Some(tx));
    let mut buf = buffer(b"\x30\x04\x00\x01tx\xf0\x00\x07");
    assert!(matches!(
        relay.read(&mut buf),
        Err(Error::MQTT(MqttError::InvalidPacketType(15)))
    ));
    assert_eq!(&buf[..], b"\x07");
    assert!(!relay.sending());
}

#[test]
fn packet_that_is_cut_waits_and_those_before_it_are_sent() {
    let mut relay = Relay::new(Vec::new());
    let (tx, _rx) = data_channel();
    relay.subscribe(Some(tx));
    let mut buf = buffer(b"\x30\x04\x00\x01tx\x30\x06\x00\x01ty");
    let relayed = relay.read(&mut buf).unwrap();
    assert_eq!(relayed.deliveries.len(), 1);
    assert_eq!(&buf[..], b"\x30\x06\x00\x01ty");
    assert!(relay.read(&mut buf).unwrap().deliveries.is_empty());
    buf.extend_from_slice(b"zz");
    let relayed = relay.read(&mut buf).unwrap();
    assert_eq!(
        relayed.deliveries[0].publish,
        Bytes::from_static(b"\x30\x06\x00\x01tyzz")
    );
    assert!(buf.is_empty());
}

#[test]
fn publish_stream_gives_the_same_however_it_is_cut() {
    let stream = b"\x30\x04\x00\x01tx\x30\x05\x00\x01tyz\x30\x03\x00\x01t\x30";
    let mut expected = Vec::new();
    let mut relay = Relay::new(Vec::new());
    let (tx, _rx) = data_channel();
    relay.subscribe(Some(tx));
    let mut buf = buffer(stream);
    for delivery in relay.read(&mut buf).unwrap().deliveries {
        expected.push(delivery.publish);
    }
    assert_eq!(expected.len(), 3);
    assert_eq!(&buf[..], b"\x30");

    for cut in 0..stream.len() + 1 {
        let mut got = Vec::new();
        let mut buf = buffer(&stream[..cut]);
        for delivery in relay.read(&mut buf).unwrap().deliveries {
            got.push(delivery.publish);
        }
        buf.extend_from_slice(&stream[cut..]);
        for delivery in relay.read(&mut buf).unwrap().deliveries {
            got.push(delivery.publish);
        }
        assert_eq!(got, expected);
        assert_eq!(&buf[..], b"\x30");
    }
}

#[test]
fn readers_take_the_same_bytes() {
    let stream = b"\x30\x04\x00\x01tx\xe0\x00\x30\x05\x00\x01tyz";
    let mut all = buffer(stream);
    let mut publishes = buffer(stream);
    for _ in 0..3 {
        mquictt::packet::read_packet(&mut all, 1024).unwrap();
        mquictt::MQTTRead::read(&mut publishes).unwrap();
        assert_eq!(all, publishes);
    }
    assert!(all.is_empty());
}
