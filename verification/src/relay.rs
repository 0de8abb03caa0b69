//! A publish stream: handing each publish that comes in on to the subscribers of its topic.

use std::sync::Arc;

use bytes::{Bytes, BytesMut};
use slab::Slab;
use vstd::prelude::*;

use crate::buffer::{buffered, held};
use crate::error::{Error, MqttError};
use crate::protocol::{publish_read, publish_rest, MQTTRead, MQTTReadView};
use crate::registry::DataTx;
use crate::subscribers::{
    lists, slab_contains, slab_insert, slab_iter, slab_remove, slab_with_capacity, slots,
};

verus! {

/// How many subscribers a publish stream has room for at first.
pub const SUBSCRIBER_CAPACITY: usize = 1024;

/// A publish that is to be sent to a subscriber.
pub struct Delivery {
    /// The key of the subscriber.
    pub key: usize,
    /// The subscriber.
    pub subscriber: Arc<DataTx>,
    /// The PUBLISH packet, whole.
    pub publish: Bytes,
}

/// A `Delivery`, with the packet as its bytes.
pub struct DeliveryView {
    pub key: usize,
    pub subscriber: Arc<DataTx>,
    pub publish: Seq<u8>,
}

impl View for Delivery {
    type V = DeliveryView;

    open spec fn view(&self) -> DeliveryView {
        DeliveryView { key: self.key, subscriber: self.subscriber, publish: held(self.publish) }
    }
}

/// What is in the bytes of a publish stream.
pub struct Drained {
    /// The PUBLISH packets, whole, in the order in which they came in.
    pub publishes: Seq<Seq<u8>>,
    /// There was a DISCONNECT packet among them.
    pub disconnect: bool,
    /// The bytes behind the last packet, which may be the start of the next.
    pub rest: Seq<u8>,
    /// What was wrong with the last packet, if anything was.
    pub failure: Option<MqttError>,
}

/// Reading one packet off a publish stream makes the rest shorter; waiting for more bytes leaves
/// all of them.
pub proof fn lemma_publish_rest(s: Seq<u8>)
    ensures
        publish_read(s) is Ok ==> publish_rest(s).len() + 2 <= s.len(),
        publish_read(s) matches Err(MqttError::InsufficientBytes(_)) ==> publish_rest(s) == s,
{
    reveal_with_fuel(crate::protocol::length_value, 5);
}

/// What reading all the packets off a publish stream gives.
pub open spec fn drained(s: Seq<u8>) -> Drained
    decreases s.len(),
{
    proof {
        lemma_publish_rest(s);
    }
    match publish_read(s) {
        Ok(MQTTReadView::Publish(packet)) => {
            let behind = drained(publish_rest(s));
            Drained { publishes: seq![packet] + behind.publishes, ..behind }
        },
        Ok(MQTTReadView::Disconnect) => {
            let behind = drained(publish_rest(s));
            Drained { disconnect: true, ..behind }
        },
        Err(MqttError::InsufficientBytes(_)) => Drained {
            publishes: Seq::empty(),
            disconnect: false,
            rest: s,
            failure: None,
        },
        Err(e) => Drained {
            publishes: Seq::empty(),
            disconnect: false,
            rest: publish_rest(s),
            failure: Some(e),
        },
    }
}

/// Each of the publishes for each of the subscribers: in the order of the publishes, and for each
/// of them in the order of the subscribers.
pub open spec fn fan_out(
    publishes: Seq<Seq<u8>>,
    items: Seq<(usize, Arc<DataTx>)>,
) -> Seq<DeliveryView>
    decreases publishes.len(),
{
    if publishes.len() == 0 {
        Seq::empty()
    } else {
        fan_out(publishes.drop_last(), items) + one_each(publishes.last(), items)
    }
}

/// One publish for each of the subscribers.
pub open spec fn one_each(
    publish: Seq<u8>,
    items: Seq<(usize, Arc<DataTx>)>,
) -> Seq<DeliveryView> {
    Seq::new(
        items.len(),
        |i: int| DeliveryView { key: items[i].0, subscriber: items[i].1, publish },
    )
}

/// Subscribers by their keys, the first key for the first of them.
pub open spec fn seated(keys: Seq<usize>, subscribers: Seq<Arc<DataTx>>) -> Map<
    usize,
    Arc<DataTx>,
>
    decreases keys.len(),
{
    if keys.len() == 0 {
        Map::empty()
    } else {
        seated(keys.drop_last(), subscribers.drop_last()).insert(keys.last(), subscribers.last())
    }
}

/// The keys under which there are subscribers are those that were given out.
pub proof fn lemma_seated(keys: Seq<usize>, subscribers: Seq<Arc<DataTx>>)
    requires
        keys.no_duplicates(),
        keys.len() == subscribers.len(),
    ensures
        forall|key: usize| #[trigger]
            seated(keys, subscribers).contains_key(key) == keys.contains(key),
        forall|i: int|
            0 <= i < keys.len() ==> #[trigger] seated(keys, subscribers)[keys[i]] == subscribers[i],
    decreases keys.len(),
{
    if keys.len() > 0 {
        let k = keys.drop_last();
        let s = subscribers.drop_last();
        assert(k.no_duplicates());
        lemma_seated(k, s);
        assert(seated(keys, subscribers) == seated(k, s).insert(keys.last(), subscribers.last()));
        assert forall|key: usize| #[trigger]
            seated(keys, subscribers).contains_key(key) == keys.contains(key) by {
            assert(seated(k, s).contains_key(key) == k.contains(key));
            if k.contains(key) {
                let i = choose|i: int| 0 <= i < k.len() && k[i] == key;
                assert(keys[i] == key);
            }
            if keys.contains(key) && key != keys.last() {
                let i = choose|i: int| 0 <= i < keys.len() && keys[i] == key;
                assert(k[i] == key);
            }
            assert(keys[keys.len() - 1] == keys.last());
        }
        assert forall|i: int| 0 <= i < keys.len() implies #[trigger] seated(
            keys,
            subscribers,
        )[keys[i]] == subscribers[i] by {
            if i < k.len() {
                assert(k[i] == keys[i] && s[i] == subscribers[i]);
                assert(keys[i] != keys.last());
                assert(seated(k, s)[k[i]] == s[i]);
            }
        }
    }
}

/// The deliveries, with their packets as bytes.
pub open spec fn views(deliveries: Seq<Delivery>) -> Seq<DeliveryView> {
    deliveries.map_values(|d: Delivery| d@)
}

/// What came of the bytes of a publish stream.
pub struct Relayed {
    /// What is to be sent, in this order.
    pub deliveries: Vec<Delivery>,
    /// The publisher asked for the end of the connection.
    pub disconnect: bool,
}

/// What became of the publishes that were to be sent.
#[derive(Debug, Clone, Copy)]
pub enum SendOutcome {
    /// One could not be sent: the subscriber with this key is gone.
    Failed(usize),
    /// One was sent.
    Sent,
    /// There are none.
    Empty,
}

/// The subscribers of a publish stream, and whether there are publishes on their way to them.
pub struct Relay {
    subscribers: Slab<Arc<DataTx>>,
    send_queue_empty: bool,
}

impl Relay {
    /// The subscribers, by their keys.
    pub closed spec fn subscribers(&self) -> Map<usize, Arc<DataTx>> {
        slots(self.subscribers)
    }

    /// There are no publishes on their way.
    pub closed spec fn idle(&self) -> bool {
        self.send_queue_empty
    }

    /// A publish stream with the subscribers that there are already. Each gets a key of its own.
    pub fn new(subscribers: Vec<Arc<DataTx>>) -> (r: Relay)
        ensures
            exists|keys: Seq<usize>| #[trigger]
                keys.no_duplicates() && keys.len() == subscribers@.len() && r.subscribers()
                    == seated(keys, subscribers@),
            r.idle(),
    {
        let mut slab = slab_with_capacity(SUBSCRIBER_CAPACITY);
        let ghost mut keys: Seq<usize> = Seq::empty();
        let mut i: usize = 0;
        while i < subscribers.len()
            invariant
                0 <= i <= subscribers@.len(),
                keys.len() == i,
                keys.no_duplicates(),
                slots(slab) == seated(keys, subscribers@.take(i as int)),
            decreases subscribers@.len() - i,
        {
            let ghost before = keys;
            let key: usize = slab_insert(&mut slab, subscribers[i].clone());
            proof {
                lemma_seated(before, subscribers@.take(i as int));
                keys = before.push(key);
                assert(keys.drop_last() == before);
                assert(subscribers@.take(i + 1).drop_last() == subscribers@.take(i as int));
            }
            i += 1;
        }
        assert(subscribers@.take(i as int) == subscribers@);
        Relay { subscribers: slab, send_queue_empty: true }
    }

    /// Reads all the whole packets off the buffer, and says to whom each of the publishes is to be
    /// sent: to each of the subscribers, in the order in which the publishes came in. A packet that
    /// is not there as a whole stays in the buffer until the rest of it has come in.
    ///
    /// A packet that a publish stream may not bring ends the stream, and what came in before it
    /// since the last call is not sent.
    pub fn read(&mut self, buf: &mut BytesMut) -> (r: Result<Relayed, Error>)
        ensures
            buffered(*final(buf)) == drained(buffered(*old(buf))).rest,
            final(self).subscribers() == old(self).subscribers(),
            match drained(buffered(*old(buf))).failure {
                Some(e) => {
                    &&& r == Err::<Relayed, Error>(Error::MQTT(e))
                    &&& final(self).idle() == old(self).idle()
                },
                None => {
                    &&& r matches Ok(relayed)
                    &&& relayed.disconnect == drained(buffered(*old(buf))).disconnect
                    &&& exists|items: Seq<(usize, Arc<DataTx>)>| #[trigger]
                        lists(old(self).subscribers(), items) && views(relayed.deliveries@)
                            == fan_out(drained(buffered(*old(buf))).publishes, items)
                    &&& final(self).idle() == (old(self).idle() && relayed.deliveries@.len() == 0)
                },
            },
    {
        let items = slab_iter(&self.subscribers);
        let mut deliveries: Vec<Delivery> = Vec::new();
        let mut disconnect: bool = false;
        let ghost all = drained(buffered(*buf));
        let ghost mut done: Seq<Seq<u8>> = Seq::empty();
        assert(all.publishes == done + all.publishes);
        assert(views(deliveries@) == fan_out(done, items@));
        loop
            invariant
                all == drained(buffered(*old(buf))),
                all.publishes == done + drained(buffered(*buf)).publishes,
                all.disconnect == (disconnect || drained(buffered(*buf)).disconnect),
                all.rest == drained(buffered(*buf)).rest,
                all.failure == drained(buffered(*buf)).failure,
                views(deliveries@) == fan_out(done, items@),
                lists(old(self).subscribers(), items@),
                *self == *old(self),
            decreases buffered(*buf).len(),
        {
            proof {
                lemma_publish_rest(buffered(*buf));
            }
            let ghost before = buffered(*buf);
            match MQTTRead::read(buf) {
                Ok(MQTTRead::Publish(publish)) => {
                    let ghost packet = held(publish);
                    let ghost sent = views(deliveries@);
                    let mut i: usize = 0;
                    while i < items.len()
                        invariant
                            0 <= i <= items@.len(),
                            held(publish) == packet,
                            views(deliveries@) == sent + one_each(packet, items@).take(i as int),
                        decreases items@.len() - i,
                    {
                        let ghost earlier = deliveries@;
                        let delivery = Delivery {
                            key: items[i].0,
                            subscriber: items[i].1.clone(),
                            publish: publish.clone(),
                        };
                        deliveries.push(delivery);
                        i += 1;
                        assert(views(deliveries@) == views(earlier).push(delivery@));
                        assert(one_each(packet, items@).take(i as int) == one_each(
                            packet,
                            items@,
                        ).take(i - 1).push(delivery@));
                    }
                    assert(one_each(packet, items@).take(i as int) == one_each(packet, items@));
                    proof {
                        assert(done.push(packet).drop_last() == done);
                        assert(all.publishes == done.push(packet) + drained(
                            buffered(*buf),
                        ).publishes);
                        done = done.push(packet);
                    }
                },
                Ok(MQTTRead::Disconnect) => {
                    disconnect = true;
                },
                Err(MqttError::InsufficientBytes(_)) => {
                    assert(all.publishes == done);
                    if deliveries.len() > 0 {
                        self.send_queue_empty = false;
                    }
                    return Ok(Relayed { deliveries, disconnect });
                },
                Err(e) => return Err(Error::MQTT(e)),
            }
        }
    }

    /// Takes in what the request channel gave: a subscriber, which gets the publishes from now on.
    /// Returns whether the stream goes on; a channel that gives no more ends it.
    pub fn subscribe(&mut self, request: Option<DataTx>) -> (r: bool)
        ensures
            final(self).idle() == old(self).idle(),
            match request {
                Some(subscriber) => {
                    &&& r
                    &&& exists|key: usize|
                        !old(self).subscribers().contains_key(key) && final(self).subscribers()
                            == #[trigger] old(self).subscribers().insert(key, Arc::new(subscriber))
                },
                None => !r && final(self).subscribers() == old(self).subscribers(),
            },
    {
        match request {
            Some(subscriber) => {
                let value = Arc::new(subscriber);
                let key: usize = slab_insert(&mut self.subscribers, value);
                assert(self.subscribers() == old(self).subscribers().insert(key, value));
                true
            },
            None => false,
        }
    }

    /// Takes in what became of the publishes that were to be sent. A subscriber that could not be
    /// reached gets no more of them.
    ///
    /// It goes by the key alone. Where several publishes were on their way to one that is gone, the
    /// first of them to fail frees its key; the key may have passed to another by the time the
    /// next one fails, and that one then gets no more publishes either.
    pub fn sent(&mut self, outcome: SendOutcome)
        ensures
            match outcome {
                SendOutcome::Failed(key) => {
                    &&& final(self).subscribers() == old(self).subscribers().remove(key)
                    &&& final(self).idle() == old(self).idle()
                },
                SendOutcome::Sent => {
                    &&& final(self).subscribers() == old(self).subscribers()
                    &&& final(self).idle() == old(self).idle()
                },
                SendOutcome::Empty => {
                    &&& final(self).subscribers() == old(self).subscribers()
                    &&& final(self).idle()
                },
            },
    {
        match outcome {
            SendOutcome::Failed(key) => {
                if slab_contains(&self.subscribers, key) {
                    slab_remove(&mut self.subscribers, key);
                }
                assert(self.subscribers() =~= old(self).subscribers().remove(key));
            },
            SendOutcome::Sent => {},
            SendOutcome::Empty => {
                self.send_queue_empty = true;
            },
        }
    }

    /// Whether there may be publishes on their way.
    pub fn sending(&self) -> (r: bool)
        ensures
            r == !self.idle(),
    {
        !self.send_queue_empty
    }
}

} // verus!
