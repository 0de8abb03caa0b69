//! What is published is what subscribers read.

use std::sync::Arc;

use vstd::prelude::*;
use vstd::utf8::encode_utf8;

use crate::buffer::held;
use crate::client::{flushed, published, Publisher, PublisherView};
use crate::inbound::{awaited, lemma_packet_rest, wants, Outcome, Wanted};
use crate::laws::exchange::publisher_is_taken;
use crate::laws::framing::{publish_round_trip, publish_stream_round_trip, topic_written};
use crate::laws::streams::{awaited_in_parts, drained_in_parts};
use crate::packet::{
    longest, packet_read, packet_rest, publish_body, publish_packet, PacketView, MAX_PACKET_SIZE,
};
use crate::registry::DataTx;
use crate::relay::{
    drained, fan_out, lemma_publish_rest, lemma_seated, one_each, seated, views, Delivery,
    DeliveryView, Drained,
};
use crate::subscribers::lists;

verus! {

/// The packets of payloads that are published to a topic.
pub open spec fn packets(topic: Seq<char>, payloads: Seq<Seq<u8>>) -> Seq<Seq<u8>> {
    payloads.map_values(|payload: Seq<u8>| publish_packet(topic, payload))
}

/// The bytes of packets that are written one behind the other.
pub open spec fn joined(packets: Seq<Seq<u8>>) -> Seq<u8>
    decreases packets.len(),
{
    if packets.len() == 0 {
        Seq::empty()
    } else {
        joined(packets.drop_last()) + packets.last()
    }
}

/// The payloads fit into packets with a remaining length of up to `max`.
pub open spec fn fit_packets(topic: Seq<char>, payloads: Seq<Seq<u8>>, max: int) -> bool {
    forall|i: int|
        0 <= i < payloads.len() ==> publish_body(topic, #[trigger] payloads[i]).len() <= max
}

/// What is published, however often, is written by the next flush: each packet once, in the order
/// of the calls, all to the same topic. Until then nothing is written, as only a flush takes bytes
/// away, and a second flush with no publish in between writes nothing.
pub proof fn flush_writes_what_was_published(
    states: Seq<PublisherView>,
    payloads: Seq<Seq<u8>>,
    after: PublisherView,
    later: PublisherView,
    bytes: Seq<u8>,
    more: Seq<u8>,
)
    requires
        states.len() == payloads.len() + 1,
        states[0].unflushed == Seq::<u8>::empty(),
        forall|i: int|
            0 <= i < payloads.len() ==> #[trigger] published(states[i], states[i + 1], payloads[i]),
        flushed(states.last(), after, bytes),
        flushed(after, later, more),
    ensures
        bytes == joined(packets(states[0].topic, payloads)),
        after.topic == states[0].topic,
        more == Seq::<u8>::empty(),
{
    lemma_published(states, payloads, payloads.len() as int);
    assert(payloads.take(payloads.len() as int) == payloads);
}

proof fn lemma_published(states: Seq<PublisherView>, payloads: Seq<Seq<u8>>, n: int)
    requires
        states.len() == payloads.len() + 1,
        states[0].unflushed == Seq::<u8>::empty(),
        forall|i: int|
            0 <= i < payloads.len() ==> #[trigger] published(states[i], states[i + 1], payloads[i]),
        0 <= n <= payloads.len(),
    ensures
        states[n].topic == states[0].topic,
        states[n].unflushed == joined(packets(states[0].topic, payloads.take(n))),
    decreases n,
{
    let topic = states[0].topic;
    if n == 0 {
        assert(packets(topic, payloads.take(0)) == Seq::<Seq<u8>>::empty());
    } else {
        lemma_published(states, payloads, n - 1);
        assert(published(states[n - 1], states[n - 1 + 1], payloads[n - 1]));
        assert(payloads.take(n) == payloads.take(n - 1).push(payloads[n - 1]));
        publishing_joins(topic, payloads.take(n - 1), payloads[n - 1]);
    }
}

/// Publishing once more puts one more packet behind those that wait for a flush.
pub proof fn publishing_joins(topic: Seq<char>, payloads: Seq<Seq<u8>>, payload: Seq<u8>)
    ensures
        joined(packets(topic, payloads.push(payload))) == joined(packets(topic, payloads))
            + publish_packet(topic, payload),
{
    let all = packets(topic, payloads.push(payload));
    assert(all.drop_last() == packets(topic, payloads));
    assert(all.last() == publish_packet(topic, payload));
}

proof fn lemma_nothing_is_drained()
    ensures
        drained(Seq::empty()) == (Drained {
            publishes: Seq::empty(),
            disconnect: false,
            rest: Seq::empty(),
            failure: None,
        }),
{
}

proof fn lemma_one_is_drained(topic: Seq<char>, payload: Seq<u8>)
    requires
        publish_body(topic, payload).len() <= longest(),
        topic_written(topic),
    ensures
        drained(publish_packet(topic, payload)) == (Drained {
            publishes: seq![publish_packet(topic, payload)],
            disconnect: false,
            rest: Seq::empty(),
            failure: None,
        }),
{
    let packet = publish_packet(topic, payload);
    publish_stream_round_trip(topic, payload, Seq::empty());
    assert(packet + Seq::<u8>::empty() == packet);
    lemma_publish_rest(packet);
    lemma_nothing_is_drained();
    assert(seq![packet] + Seq::<Seq<u8>>::empty() == seq![packet]);
}

/// What a publisher writes is taken off the publish stream packet by packet, each as the bytes that
/// it was written as, in the order in which they were published.
pub proof fn published_is_drained(topic: Seq<char>, payloads: Seq<Seq<u8>>)
    requires
        fit_packets(topic, payloads, longest()),
        topic_written(topic),
    ensures
        drained(joined(packets(topic, payloads))) == (Drained {
            publishes: packets(topic, payloads),
            disconnect: false,
            rest: Seq::empty(),
            failure: None,
        }),
    decreases payloads.len(),
{
    let s = joined(packets(topic, payloads));
    if payloads.len() == 0 {
        assert(packets(topic, payloads) == Seq::<Seq<u8>>::empty());
        lemma_nothing_is_drained();
    } else {
        let earlier = payloads.drop_last();
        let packet = publish_packet(topic, payloads.last());
        published_is_drained(topic, earlier);
        assert(packets(topic, payloads).drop_last() == packets(topic, earlier));
        assert(packets(topic, payloads).last() == packet);
        drained_in_parts(joined(packets(topic, earlier)), packet);
        assert(Seq::<u8>::empty() + packet == packet);
        lemma_one_is_drained(topic, payloads.last());
        assert(packets(topic, earlier) + seq![packet] == packets(topic, payloads));
    }
}

/// What is to be sent to the subscriber with that key, in order.
pub open spec fn sent_to(deliveries: Seq<DeliveryView>, key: usize) -> Seq<Seq<u8>>
    decreases deliveries.len(),
{
    if deliveries.len() == 0 {
        Seq::empty()
    } else if deliveries.last().key == key {
        sent_to(deliveries.drop_last(), key).push(deliveries.last().publish)
    } else {
        sent_to(deliveries.drop_last(), key)
    }
}

proof fn lemma_sent_to_add(a: Seq<DeliveryView>, b: Seq<DeliveryView>, key: usize)
    ensures
        sent_to(a + b, key) == sent_to(a, key) + sent_to(b, key),
    decreases b.len(),
{
    if b.len() == 0 {
        assert(a + b == a);
    } else {
        lemma_sent_to_add(a, b.drop_last(), key);
        assert((a + b).drop_last() == a + b.drop_last());
        assert((a + b).last() == b.last());
    }
}

/// Of one publish for each of the first `n` subscribers, the one with that key gets one if it is
/// among them.
proof fn lemma_sent_to_one_each(
    publish: Seq<u8>,
    items: Seq<(usize, Arc<DataTx>)>,
    n: int,
    at: int,
    key: usize,
)
    requires
        0 <= n <= items.len(),
        forall|i: int, j: int| 0 <= i < j < items.len() ==> (#[trigger] items[i]).0 < (
        #[trigger] items[j]).0,
        0 <= at < items.len() ==> items[at].0 == key,
        !(0 <= at < items.len()) ==> forall|i: int|
            0 <= i < items.len() ==> (#[trigger] items[i]).0 != key,
    ensures
        sent_to(one_each(publish, items).take(n), key) == if 0 <= at < n {
            seq![publish]
        } else {
            Seq::<Seq<u8>>::empty()
        },
    decreases n,
{
    let some = one_each(publish, items).take(n);
    if n > 0 {
        lemma_sent_to_one_each(publish, items, n - 1, at, key);
        assert(some.drop_last() == one_each(publish, items).take(n - 1));
        assert(some.last().key == items[n - 1].0);
        if n - 1 == at {
            assert(Seq::<Seq<u8>>::empty().push(publish) == seq![publish]);
        } else if 0 <= at < items.len() {
            assert(items[n - 1].0 != key);
        }
    }
}

/// Each subscriber of a publish stream is sent each publish exactly once, in the order in which
/// they came in, and one that is not subscribed is sent none.
pub proof fn each_subscriber_once(
    publishes: Seq<Seq<u8>>,
    subscribers: Map<usize, Arc<DataTx>>,
    items: Seq<(usize, Arc<DataTx>)>,
    key: usize,
)
    requires
        lists(subscribers, items),
    ensures
        sent_to(fan_out(publishes, items), key) == if subscribers.contains_key(key) {
            publishes
        } else {
            Seq::empty()
        },
    decreases publishes.len(),
{
    if publishes.len() > 0 {
        let last = publishes.last();
        let each = one_each(last, items);
        each_subscriber_once(publishes.drop_last(), subscribers, items, key);
        lemma_sent_to_add(fan_out(publishes.drop_last(), items), each, key);
        assert(each.take(items.len() as int) == each);
        if subscribers.contains_key(key) {
            let at = choose|i: int| 0 <= i < items.len() && items[i] == (key, subscribers[key]);
            lemma_sent_to_one_each(last, items, items.len() as int, at, key);
            assert(publishes.drop_last() + seq![last] == publishes);
        } else {
            lemma_sent_to_one_each(last, items, items.len() as int, -1, key);
        }
    }
}

/// One that subscribes is sent the publishes that come in from then on and none that came in
/// before, and changes nothing for the others.
pub proof fn subscribing_starts_deliveries(
    publishes: Seq<Seq<u8>>,
    subscribers: Map<usize, Arc<DataTx>>,
    before: Seq<(usize, Arc<DataTx>)>,
    after: Seq<(usize, Arc<DataTx>)>,
    key: usize,
    subscriber: Arc<DataTx>,
    other: usize,
)
    requires
        !subscribers.contains_key(key),
        lists(subscribers, before),
        lists(subscribers.insert(key, subscriber), after),
        other != key,
    ensures
        sent_to(fan_out(publishes, before), key) == Seq::<Seq<u8>>::empty(),
        sent_to(fan_out(publishes, after), key) == publishes,
        sent_to(fan_out(publishes, after), other) == sent_to(fan_out(publishes, before), other),
{
    each_subscriber_once(publishes, subscribers, before, key);
    each_subscriber_once(publishes, subscribers, before, other);
    each_subscriber_once(publishes, subscribers.insert(key, subscriber), after, key);
    each_subscriber_once(publishes, subscribers.insert(key, subscriber), after, other);
}

/// One that could not be reached is sent none of the publishes that come in from then on, and
/// nothing changes for the others.
pub proof fn leaving_ends_deliveries(
    publishes: Seq<Seq<u8>>,
    subscribers: Map<usize, Arc<DataTx>>,
    before: Seq<(usize, Arc<DataTx>)>,
    after: Seq<(usize, Arc<DataTx>)>,
    key: usize,
    other: usize,
)
    requires
        subscribers.contains_key(key),
        lists(subscribers, before),
        lists(subscribers.remove(key), after),
        other != key,
    ensures
        sent_to(fan_out(publishes, after), key) == Seq::<Seq<u8>>::empty(),
        sent_to(fan_out(publishes, after), other) == sent_to(fan_out(publishes, before), other),
{
    each_subscriber_once(publishes, subscribers, before, other);
    each_subscriber_once(publishes, subscribers.remove(key), after, key);
    each_subscriber_once(publishes, subscribers.remove(key), after, other);
}

/// Each of the subscribers that a publish stream starts with is sent each publish exactly once, in
/// the order in which they came in.
pub proof fn first_subscribers_are_served(
    publishes: Seq<Seq<u8>>,
    keys: Seq<usize>,
    subscribers: Seq<Arc<DataTx>>,
    items: Seq<(usize, Arc<DataTx>)>,
    i: int,
)
    requires
        keys.no_duplicates(),
        keys.len() == subscribers.len(),
        lists(seated(keys, subscribers), items),
        0 <= i < keys.len(),
    ensures
        seated(keys, subscribers)[keys[i]] == subscribers[i],
        sent_to(fan_out(publishes, items), keys[i]) == publishes,
{
    lemma_seated(keys, subscribers);
    assert(keys.contains(keys[i]));
    each_subscriber_once(publishes, seated(keys, subscribers), items, keys[i]);
}

/// There are as many deliveries as publishes, times subscribers.
pub proof fn deliveries_are_counted(
    publishes: Seq<Seq<u8>>,
    items: Seq<(usize, Arc<DataTx>)>,
)
    ensures
        fan_out(publishes, items).len() == publishes.len() * items.len(),
    decreases publishes.len(),
{
    if publishes.len() > 0 {
        deliveries_are_counted(publishes.drop_last(), items);
        let n = publishes.len() as int;
        let m = items.len() as int;
        assert((n - 1) * m + m == n * m) by (nonlinear_arith);
    }
}

/// How packets are joined, which payloads fit into packets, and what is sent to whom.
pub proof fn streams_by_packet(
    topic: Seq<char>,
    payloads: Seq<Seq<u8>>,
    others: Seq<Seq<u8>>,
    packet: Seq<u8>,
    deliveries: Seq<DeliveryView>,
    delivery: DeliveryView,
    key: usize,
    max: int,
    i: int,
)
    ensures
        joined(Seq::empty()) == Seq::<u8>::empty(),
        joined(others.push(packet)) == joined(others) + packet,
        packets(topic, payloads).len() == payloads.len(),
        0 <= i < payloads.len() ==> packets(topic, payloads)[i] == publish_packet(
            topic,
            payloads[i],
        ),
        (forall|j: int|
            0 <= j < payloads.len() ==> 2 + encode_utf8(topic).len() + (
            #[trigger] payloads[j]).len() <= max) ==> fit_packets(topic, payloads, max),
        sent_to(Seq::empty(), key) == Seq::<Seq<u8>>::empty(),
        sent_to(deliveries.push(delivery), key) == if delivery.key == key {
            sent_to(deliveries, key).push(delivery.publish)
        } else {
            sent_to(deliveries, key)
        },
        encode_utf8(topic).len() <= 65535 ==> topic_written(topic),
{
    assert(others.push(packet).drop_last() == others);
    assert(deliveries.push(delivery).drop_last() == deliveries);
}

/// What a subscriber reads, publish by publish, and where it stops.
pub proof fn reads_by_packet(s: Seq<u8>, topic: Seq<char>, payload: Seq<u8>, rest: Seq<u8>)
    ensures
        awaited(s, Wanted::Publish) == Outcome::Found(
            PacketView::Publish { topic, payload },
            rest,
        ) ==> {
            &&& read_payloads(s) == seq![payload] + read_payloads(rest)
            &&& unread(s) == unread(rest)
            &&& read_fails(s) == read_fails(rest)
        },
        awaited(s, Wanted::Publish) == Outcome::Waiting(rest) ==> {
            &&& read_payloads(s).len() == 0
            &&& unread(s) == rest
            &&& !read_fails(s)
        },
        awaited(s, Wanted::Publish) is Failed ==> read_payloads(s).len() == 0 && read_fails(s),
{
    lemma_awaited_rest(s, Wanted::Publish);
}

/// What a delivery says: the key, the subscriber and the packet that are in it.
pub proof fn deliveries_hold_their_content(deliveries: Seq<Delivery>, i: int)
    requires
        0 <= i < deliveries.len(),
    ensures
        views(deliveries).len() == deliveries.len(),
        views(deliveries)[i].key == deliveries[i].key,
        views(deliveries)[i].subscriber == deliveries[i].subscriber,
        views(deliveries)[i].publish == held(deliveries[i].publish),
{
}

/// The deliveries, one by one: first the first publish for each of the subscribers in their order,
/// then the second for each of them, and so on.
pub proof fn delivery_by_place(
    publishes: Seq<Seq<u8>>,
    items: Seq<(usize, Arc<DataTx>)>,
    i: int,
    j: int,
)
    requires
        0 <= i < publishes.len(),
        0 <= j < items.len(),
    ensures
        0 <= i * items.len() + j < fan_out(publishes, items).len(),
        fan_out(publishes, items)[i * items.len() + j] == (DeliveryView {
            key: items[j].0,
            subscriber: items[j].1,
            publish: publishes[i],
        }),
    decreases publishes.len(),
{
    let n = publishes.len() as int;
    let m = items.len() as int;
    let earlier = publishes.drop_last();
    deliveries_are_counted(publishes, items);
    deliveries_are_counted(earlier, items);
    assert(earlier.len() == n - 1);
    assert(0 <= i * m) by (nonlinear_arith)
        requires
            0 <= i,
            0 <= m,
    ;
    assert(n * m == (n - 1) * m + m) by (nonlinear_arith);
    if i == n - 1 {
        assert(fan_out(publishes, items)[i * m + j] == one_each(publishes.last(), items)[j]);
    } else {
        delivery_by_place(earlier, items, i, j);
        assert(earlier[i] == publishes[i]);
    }
}

/// The subscribers that a publish stream starts with have the keys that were given out, one each,
/// and there are no others.
pub proof fn first_subscribers_have_their_keys(
    keys: Seq<usize>,
    subscribers: Seq<Arc<DataTx>>,
    i: int,
    key: usize,
)
    requires
        keys.no_duplicates(),
        keys.len() == subscribers.len(),
    ensures
        0 <= i < keys.len() ==> seated(keys, subscribers).contains_key(keys[i]) && seated(
            keys,
            subscribers,
        )[keys[i]] == subscribers[i],
        seated(keys, subscribers).contains_key(key) ==> keys.contains(key),
{
    lemma_seated(keys, subscribers);
    if 0 <= i < keys.len() {
        assert(keys.contains(keys[i]));
    }
}

/// What is said of a publisher is its topic, and all the bytes that it has yet to flush.
pub proof fn publisher_holds_what_waits(publisher: Publisher)
    ensures
        publisher@.topic == publisher.topic_view(),
        publisher@.unflushed == publisher.unflushed_view(),
{
}

/// Publishing puts the packet for the topic of the publisher behind what waits, and changes nothing
/// else; flushing takes all that waits, and leaves the topic.
pub proof fn publisher_by_bytes(
    before: PublisherView,
    after: PublisherView,
    payload: Seq<u8>,
    bytes: Seq<u8>,
)
    ensures
        published(before, after, payload) <==> after.topic == before.topic && after.unflushed
            == before.unflushed + publish_packet(before.topic, payload),
        flushed(before, after, bytes) <==> after.topic == before.topic && after.unflushed.len() == 0
            && bytes == before.unflushed,
{
    assert(after.unflushed.len() == 0 ==> after.unflushed =~= Seq::<u8>::empty());
}

/// What is sent to a key is sent to the subscriber that has it.
pub proof fn sent_to_its_subscriber(
    publishes: Seq<Seq<u8>>,
    subscribers: Map<usize, Arc<DataTx>>,
    items: Seq<(usize, Arc<DataTx>)>,
    i: int,
)
    requires
        lists(subscribers, items),
        0 <= i < fan_out(publishes, items).len(),
    ensures
        subscribers.contains_key(fan_out(publishes, items)[i].key),
        fan_out(publishes, items)[i].subscriber == subscribers[fan_out(publishes, items)[i].key],
    decreases publishes.len(),
{
    if publishes.len() > 0 {
        let before = fan_out(publishes.drop_last(), items);
        if i < before.len() {
            sent_to_its_subscriber(publishes.drop_last(), subscribers, items, i);
        } else {
            assert(fan_out(publishes, items)[i] == one_each(publishes.last(), items)[i
                - before.len()]);
            assert(subscribers.contains_key(items[i - before.len()].0));
        }
    }
}

/// The subscribers of a publish stream determine in which order they are sent a publish.
pub proof fn listing_is_unique(
    subscribers: Map<usize, Arc<DataTx>>,
    a: Seq<(usize, Arc<DataTx>)>,
    b: Seq<(usize, Arc<DataTx>)>,
)
    requires
        lists(subscribers, a),
        lists(subscribers, b),
    ensures
        a == b,
{
    lemma_listing_prefix(subscribers, a, b, a.len() as int);
    lemma_listing_prefix(subscribers, b, a, b.len() as int);
    assert(a =~= b);
}

/// The first `n` of one listing are the first `n` of the other.
proof fn lemma_listing_prefix(
    subscribers: Map<usize, Arc<DataTx>>,
    a: Seq<(usize, Arc<DataTx>)>,
    b: Seq<(usize, Arc<DataTx>)>,
    n: int,
)
    requires
        lists(subscribers, a),
        lists(subscribers, b),
        0 <= n <= a.len(),
    ensures
        n <= b.len(),
        forall|i: int| 0 <= i < n ==> a[i] == b[i],
    decreases n,
{
    if n > 0 {
        lemma_listing_prefix(subscribers, a, b, n - 1);
        let item = a[n - 1];
        assert(subscribers.contains_key(item.0));
        let j = choose|j: int| 0 <= j < b.len() && b[j] == (item.0, subscribers[item.0]);
        assert(j >= n - 1) by {
            if j < n - 1 {
                assert(a[j] == b[j]);
                assert(a[j].0 < a[n - 1].0);
            }
        }
        if j > n - 1 {
            let other = b[n - 1];
            assert(subscribers.contains_key(other.0));
            assert(b[n - 1].0 < b[j].0);
            let k = choose|k: int| 0 <= k < a.len() && a[k] == (other.0, subscribers[other.0]);
            if k < n - 1 {
                assert(a[k] == b[k]);
                assert(b[k].0 < b[n - 1].0);
            } else if k > n - 1 {
                assert(a[n - 1].0 < a[k].0);
            }
        }
    }
}

/// Finding a packet makes the rest shorter.
pub proof fn lemma_awaited_rest(s: Seq<u8>, wanted: Wanted)
    ensures
        awaited(s, wanted) matches Outcome::Found(_, rest) ==> rest.len() < s.len(),
    decreases s.len(),
{
    let max = MAX_PACKET_SIZE as int;
    lemma_packet_rest(s, max);
    if packet_read(s, max) is Ok && !wants(wanted, packet_read(s, max)->Ok_0) {
        lemma_awaited_rest(packet_rest(s, max), wanted);
    }
}

/// The payloads that a subscriber reads, one after the other, until it has to wait or a packet is
/// wrong.
pub open spec fn read_payloads(s: Seq<u8>) -> Seq<Seq<u8>>
    decreases s.len(),
{
    match awaited(s, Wanted::Publish) {
        Outcome::Found(PacketView::Publish { topic: _, payload }, rest) => {
            proof {
                lemma_awaited_rest(s, Wanted::Publish);
            }
            seq![payload] + read_payloads(rest)
        },
        _ => Seq::empty(),
    }
}

/// What is left once a subscriber has read all the payloads that are there.
pub open spec fn unread(s: Seq<u8>) -> Seq<u8>
    decreases s.len(),
{
    match awaited(s, Wanted::Publish) {
        Outcome::Found(_, rest) => {
            proof {
                lemma_awaited_rest(s, Wanted::Publish);
            }
            unread(rest)
        },
        Outcome::Waiting(rest) => rest,
        Outcome::Failed(_, rest) => rest,
    }
}

/// A packet that a subscriber comes upon is wrong.
pub open spec fn read_fails(s: Seq<u8>) -> bool
    decreases s.len(),
{
    match awaited(s, Wanted::Publish) {
        Outcome::Found(_, rest) => {
            proof {
                lemma_awaited_rest(s, Wanted::Publish);
            }
            read_fails(rest)
        },
        Outcome::Waiting(_) => false,
        Outcome::Failed(_, _) => true,
    }
}

/// A PUBLISH packet is what is found where one is waited for.
proof fn lemma_awaited_publish(s: Seq<u8>)
    ensures
        awaited(s, Wanted::Publish) matches Outcome::Found(packet, _) ==> packet is Publish,
    decreases s.len(),
{
    let max = MAX_PACKET_SIZE as int;
    lemma_packet_rest(s, max);
    if packet_read(s, max) is Ok && !wants(Wanted::Publish, packet_read(s, max)->Ok_0) {
        lemma_awaited_publish(packet_rest(s, max));
    }
}

/// A subscriber reads the same payloads, in the same order, however what it is sent is cut into
/// reads.
pub proof fn read_in_parts(s: Seq<u8>, t: Seq<u8>)
    requires
        !read_fails(s),
    ensures
        read_payloads(s + t) == read_payloads(s) + read_payloads(unread(s) + t),
        unread(s + t) == unread(unread(s) + t),
        read_fails(s + t) == read_fails(unread(s) + t),
    decreases s.len(),
{
    awaited_in_parts(s, t, Wanted::Publish);
    lemma_awaited_publish(s);
    lemma_awaited_rest(s, Wanted::Publish);
    match awaited(s, Wanted::Publish) {
        Outcome::Found(packet, rest) => {
            read_in_parts(rest, t);
            assert(read_payloads(s + t) == read_payloads(s) + read_payloads(unread(s) + t));
        },
        Outcome::Waiting(rest) => {
            assert(read_payloads(s) == Seq::<Seq<u8>>::empty());
            assert(read_payloads(s + t) == read_payloads(rest + t));
        },
        Outcome::Failed(_, _) => {},
    }
}

/// Packets that were written one behind the other, the first of them first.
proof fn lemma_joined_first(packets: Seq<Seq<u8>>)
    requires
        packets.len() > 0,
    ensures
        joined(packets) == packets[0] + joined(packets.drop_first()),
    decreases packets.len(),
{
    if packets.len() == 1 {
        assert(packets.drop_last() == Seq::<Seq<u8>>::empty());
        assert(packets.drop_first() == Seq::<Seq<u8>>::empty());
        assert(joined(packets) == packets[0] + joined(packets.drop_first()));
    } else {
        lemma_joined_first(packets.drop_last());
        assert(packets.drop_first().drop_last() == packets.drop_last().drop_first());
        assert(joined(packets) == packets[0] + joined(packets.drop_first()));
    }
}

/// A subscriber reads the payloads of the packets that it is sent, in the order in which they are
/// sent, and waits for more behind the last of them.
pub proof fn sent_is_read(topic: Seq<char>, payloads: Seq<Seq<u8>>)
    requires
        encode_utf8(topic).len() <= 65535,
        fit_packets(topic, payloads, MAX_PACKET_SIZE as int),
    ensures
        read_payloads(joined(packets(topic, payloads))) == payloads,
        unread(joined(packets(topic, payloads))) == Seq::<u8>::empty(),
        !read_fails(joined(packets(topic, payloads))),
    decreases payloads.len(),
{
    let s = joined(packets(topic, payloads));
    if payloads.len() == 0 {
        assert(packets(topic, payloads) == Seq::<Seq<u8>>::empty());
        assert(read_payloads(s) == payloads);
    } else {
        let later = payloads.drop_first();
        let rest = joined(packets(topic, later));
        lemma_joined_first(packets(topic, payloads));
        assert(packets(topic, payloads).drop_first() == packets(topic, later));
        assert(s == publish_packet(topic, payloads[0]) + rest);
        publish_round_trip(topic, payloads[0], rest);
        sent_is_read(topic, later);
        assert(seq![payloads[0]] + later == payloads);
    }
}

/// What a publisher publishes to a topic, a subscriber of its stream reads: all of it, once, and in
/// the order in which it was published.
///
/// The bytes that the publisher writes are drained from its stream, each publish is sent on to the
/// subscriber as it is, and the subscriber reads the payloads off the bytes that it is sent.
pub proof fn published_is_read(
    topic: Seq<char>,
    payloads: Seq<Seq<u8>>,
    subscribers: Map<usize, Arc<DataTx>>,
    items: Seq<(usize, Arc<DataTx>)>,
    key: usize,
)
    requires
        encode_utf8(topic).len() <= 65535,
        fit_packets(topic, payloads, MAX_PACKET_SIZE as int),
        lists(subscribers, items),
        subscribers.contains_key(key),
    ensures
        ({
            let arrived = drained(joined(packets(topic, payloads)));
            let sent = sent_to(fan_out(arrived.publishes, items), key);
            arrived.failure is None && read_payloads(joined(sent)) == payloads
        }),
{
    published_is_drained(topic, payloads);
    each_subscriber_once(packets(topic, payloads), subscribers, items, key);
    sent_is_read(topic, payloads);
}

/// A stream that is opened to publish to a topic is taken as one, and all that is published behind
/// the packet that opens it is there to be relayed, that packet's own payload being dropped.
pub proof fn opened_stream_is_drained(
    topic: Seq<char>,
    init_payload: Seq<u8>,
    payloads: Seq<Seq<u8>>,
)
    requires
        encode_utf8(topic).len() <= 65535,
        publish_body(topic, init_payload).len() <= MAX_PACKET_SIZE,
        fit_packets(topic, payloads, longest()),
    ensures
        ({
            let behind = joined(packets(topic, payloads));
            &&& awaited(publish_packet(topic, init_payload) + behind, Wanted::Purpose)
                == Outcome::Found(PacketView::Publish { topic, payload: init_payload }, behind)
            &&& drained(behind).publishes == packets(topic, payloads)
        }),
{
    publisher_is_taken(topic, init_payload, joined(packets(topic, payloads)));
    published_is_drained(topic, payloads);
}

} // verus!
