//! Subscribers and publishers of a topic find each other.

use std::sync::Arc;

use vstd::prelude::*;

use crate::registry::{
    any_open, dropped, ended, expected, left, noted, opened, parked, request_channel, subscribed,
    taken, topic_of, waiting, DataTx, Seat, SubReqRx, Topics, CHANNEL_CAPACITY,
};

verus! {

/// One of the things happened that can happen to a registry, and it happened to that topic.
pub open spec fn step(before: Topics, after: Topics, topic: Seq<char>) -> bool {
    ||| exists|stream: usize, rx: SubReqRx, given: Seq<Arc<DataTx>>|
        opened(before, after, topic, stream, rx, given)
    ||| exists|stream: usize| ended(before, after, topic, stream)
    ||| expected(before, after, topic)
    ||| exists|subscriber: DataTx, key: usize| subscribed(before, after, topic, subscriber, key)
    ||| exists|key: usize| left(before, after, topic, key)
}

/// Once a publish stream has been opened for a topic, the requests of those that subscribe to the
/// topic reach it, be it the first stream of the topic or a later one, and whatever happens to the
/// registry after that.
pub proof fn subscriber_reaches_publishers(
    before: Topics,
    after: Topics,
    later: Topics,
    topic: Seq<char>,
    other: Seq<char>,
    stream: usize,
    rx: SubReqRx,
    given: Seq<Arc<DataTx>>,
)
    requires
        opened(before, after, topic, stream, rx, given),
        step(after, later, other),
    ensures
        request_channel(CHANNEL_CAPACITY, after[topic].requests[stream as int], rx),
        later.contains_key(topic),
        stream < later[topic].requests.len(),
        request_channel(CHANNEL_CAPACITY, later[topic].requests[stream as int], rx),
{
    topics_stay(after, later, other, topic);
    let kept = after[topic].requests;
    assert(topic_of(later, topic).requests.take(kept.len() as int)[stream as int]
        == later[topic].requests[stream as int]);
}

/// Subscribers that have their seats are among those that are handed over.
proof fn lemma_taken(seats: Seq<Seat>, key: int)
    requires
        0 <= key < seats.len(),
        seats[key] is Taken,
    ensures
        taken(seats).contains(seats[key]->Taken_0),
    decreases seats.len(),
{
    let earlier = taken(seats.drop_last());
    if key == seats.len() - 1 {
        assert(taken(seats)[earlier.len() as int] == seats[key]->Taken_0);
    } else {
        lemma_taken(seats.drop_last(), key);
        let i = choose|i: int| 0 <= i < earlier.len() && earlier[i] == seats[key]->Taken_0;
        assert(taken(seats)[i] == seats[key]->Taken_0);
    }
}

/// A publish stream that is opened for a topic gets those that have subscribed to it already: where
/// their requests are parked it takes the channel that they were sent on, and otherwise each of
/// them is handed over to it.
pub proof fn publisher_gets_subscribers(
    before: Topics,
    after: Topics,
    topic: Seq<char>,
    stream: usize,
    rx: SubReqRx,
    given: Seq<Arc<DataTx>>,
    key: usize,
)
    requires
        opened(before, after, topic, stream, rx, given),
        key < topic_of(before, topic).seats.len(),
        topic_of(before, topic).seats[key as int] is Taken,
    ensures
        if waiting(before, topic) {
            before[topic].parked == Some(rx) && given.len() == 0
        } else {
            given.contains(before[topic].seats[key as int]->Taken_0)
        },
        after[topic].seats == before[topic].seats,
{
    if !waiting(before, topic) {
        lemma_taken(before[topic].seats, key as int);
    }
}

/// One that subscribes to a topic that has no publish stream is not lost: it is noted down, and its
/// request goes into the channel that the first publish stream of the topic takes.
pub proof fn subscriber_waits_for_publisher(
    before: Topics,
    between: Topics,
    after: Topics,
    topic: Seq<char>,
    subscriber: DataTx,
    key: usize,
    stream: usize,
    rx: SubReqRx,
    given: Seq<Arc<DataTx>>,
)
    requires
        !before.contains_key(topic),
        subscribed(before, between, topic, subscriber, key),
        opened(between, after, topic, stream, rx, given),
    ensures
        between[topic].parked == Some(rx),
        between[topic].requests.len() == 1,
        request_channel(CHANNEL_CAPACITY, between[topic].requests[0], rx),
        between[topic].seats == seq![Seat::Taken(Arc::new(subscriber))],
{
    let known = choose|known: Topics| #[trigger]
        expected(before, known, topic) && noted(known, between, topic, subscriber, key);
    assert(parked(before, known, topic));
    assert(between[topic].seats =~= seq![Seat::Taken(Arc::new(subscriber))]);
}

/// When a publish stream ends, the subscribers of its topic stay as long as another publish stream
/// of the topic is open. With the last one none of them is kept, and no seat becomes free by it: a
/// key goes to no other before the one that has it has left.
pub proof fn subscribers_end_with_publishers(
    before: Topics,
    after: Topics,
    topic: Seq<char>,
    stream: usize,
)
    requires
        ended(before, after, topic, stream),
        stream < topic_of(before, topic).open.len(),
        topic_of(before, topic).open[stream as int],
    ensures
        after.contains_key(topic),
        !after[topic].open[stream as int],
        any_open(after[topic].open) ==> after[topic].seats == before[topic].seats,
        !any_open(after[topic].open) ==> taken(after[topic].seats).len() == 0,
        after[topic].seats.len() == before[topic].seats.len(),
        forall|key: int|
            0 <= key < before[topic].seats.len() ==> (#[trigger] after[topic].seats[key] is Free)
                == (before[topic].seats[key] is Free),
{
    lemma_dropped(before[topic].seats);
}

proof fn lemma_dropped(seats: Seq<Seat>)
    ensures
        taken(dropped(seats)).len() == 0,
    decreases seats.len(),
{
    if seats.len() > 0 {
        lemma_dropped(seats.drop_last());
        assert(dropped(seats).drop_last() == dropped(seats.drop_last()));
    }
}

/// What happens to a topic changes nothing for the other topics.
pub proof fn other_topics_unchanged(
    before: Topics,
    after: Topics,
    topic: Seq<char>,
    other: Seq<char>,
)
    requires
        step(before, after, topic),
        other != topic,
    ensures
        after.contains_key(other) == before.contains_key(other),
        before.contains_key(other) ==> after[other] == before[other],
{
    if exists|subscriber: DataTx, key: usize| subscribed(before, after, topic, subscriber, key) {
        let (subscriber, key) = choose|subscriber: DataTx, key: usize|
            subscribed(before, after, topic, subscriber, key);
        let known = choose|known: Topics| #[trigger]
            expected(before, known, topic) && noted(known, after, topic, subscriber, key);
        assert(known.contains_key(other) == before.contains_key(other));
    }
}

/// A topic that is known stays known, and keeps its request channels: another publish stream for
/// the topic changes nothing for those that it has.
pub proof fn topics_stay(before: Topics, after: Topics, topic: Seq<char>, known: Seq<char>)
    requires
        step(before, after, topic),
        before.contains_key(known),
    ensures
        after.contains_key(known),
        before[known].requests.len() <= after[known].requests.len(),
        after[known].requests.take(before[known].requests.len() as int) == before[known].requests,
{
    let kept = before[known].requests;
    assert(kept.take(kept.len() as int) == kept);
    if topic != known {
        other_topics_unchanged(before, after, topic, known);
    } else if exists|stream: usize, rx: SubReqRx, given: Seq<Arc<DataTx>>|
        opened(before, after, topic, stream, rx, given) {
        let (stream, rx, given) = choose|stream: usize, rx: SubReqRx, given: Seq<Arc<DataTx>>|
            opened(before, after, topic, stream, rx, given);
        if !waiting(before, topic) {
            assert(after[topic].requests.take(kept.len() as int)
                == after[topic].requests.drop_last());
        }
    }
}

/// What is said of a topic: nothing of one that is not known, and requests wait for a publish
/// stream where the receiving end of their channel is parked.
pub proof fn topics_by_what_is_known(topics: Topics, topic: Seq<char>)
    ensures
        waiting(topics, topic) <==> topics.contains_key(topic) && topics[topic].parked is Some,
        topics.contains_key(topic) ==> topic_of(topics, topic) == topics[topic],
        !topics.contains_key(topic) ==> {
            &&& topic_of(topics, topic).parked is None
            &&& topic_of(topics, topic).requests.len() == 0
            &&& topic_of(topics, topic).open.len() == 0
            &&& topic_of(topics, topic).seats.len() == 0
        },
{
}

/// All that can happen to a registry is a step of it.
pub proof fn all_steps(
    before: Topics,
    after: Topics,
    topic: Seq<char>,
    stream: usize,
    rx: SubReqRx,
    given: Seq<Arc<DataTx>>,
    subscriber: DataTx,
    key: usize,
)
    ensures
        opened(before, after, topic, stream, rx, given) ==> step(before, after, topic),
        ended(before, after, topic, stream) ==> step(before, after, topic),
        expected(before, after, topic) ==> step(before, after, topic),
        subscribed(before, after, topic, subscriber, key) ==> step(before, after, topic)
            && one_subscribed(before, after, topic),
        left(before, after, topic, key) ==> step(before, after, topic),
{
}

/// A publish stream that was opened is open, and was not before; its number is its own, and the
/// other publish streams of the topic stay as they are. Nobody is seated or unseated by it, and
/// requests are parked no longer.
pub proof fn opened_stream_is_open(
    before: Topics,
    after: Topics,
    topic: Seq<char>,
    stream: usize,
    rx: SubReqRx,
    given: Seq<Arc<DataTx>>,
    other: int,
)
    requires
        opened(before, after, topic, stream, rx, given),
        before.contains_key(topic) ==> before[topic].open.len() == before[topic].requests.len(),
        waiting(before, topic) ==> before[topic].open == seq![false],
    ensures
        stream < after[topic].open.len(),
        after[topic].open[stream as int],
        after[topic].open.len() == after[topic].requests.len(),
        before.contains_key(topic) && stream < before[topic].open.len() ==> !before[topic].open[
            stream as int
        ],
        before.contains_key(topic) && 0 <= other < before[topic].open.len() && other != stream
            ==> after[topic].open[other] == before[topic].open[other],
        before.contains_key(topic) ==> after[topic].seats == before[topic].seats,
        !before.contains_key(topic) ==> after[topic].seats.len() == 0 && given.len() == 0 && stream
            == 0 && after[topic].requests.len() == 1,
        after[topic].parked is None,
        !waiting(after, topic),
{
}

/// The subscribers that are handed over are those that have their seats, in the order of the seats.
pub proof fn taken_by_seat(seats: Seq<Seat>, subscriber: Arc<DataTx>)
    ensures
        taken(Seq::empty()) == Seq::<Arc<DataTx>>::empty(),
        taken(seats.push(Seat::Taken(subscriber))) == taken(seats).push(subscriber),
        taken(seats.push(Seat::Free)) == taken(seats),
        taken(seats.push(Seat::Dropped)) == taken(seats),
{
    assert(seats.push(Seat::Taken(subscriber)).drop_last() == seats);
    assert(seats.push(Seat::Free).drop_last() == seats);
    assert(seats.push(Seat::Dropped).drop_last() == seats);
}

/// Where the requests of a topic are not parked, a publish stream that is opened for it is handed
/// all those that have their seats, and nobody else.
pub proof fn given_are_those_seated(
    before: Topics,
    after: Topics,
    topic: Seq<char>,
    stream: usize,
    rx: SubReqRx,
    given: Seq<Arc<DataTx>>,
    i: int,
)
    requires
        opened(before, after, topic, stream, rx, given),
        0 <= i < given.len(),
    ensures
        before.contains_key(topic),
        before[topic].parked is None,
        exists|key: int|
            0 <= key < before[topic].seats.len() && #[trigger] before[topic].seats[key]
                == Seat::Taken(given[i]),
{
    lemma_taken_back(before[topic].seats, i);
}

proof fn lemma_taken_back(seats: Seq<Seat>, i: int)
    requires
        0 <= i < taken(seats).len(),
    ensures
        exists|key: int|
            0 <= key < seats.len() && #[trigger] seats[key] == Seat::Taken(taken(seats)[i]),
    decreases seats.len(),
{
    let earlier = seats.drop_last();
    if i < taken(earlier).len() {
        lemma_taken_back(earlier, i);
        let key = choose|key: int|
            0 <= key < earlier.len() && #[trigger] earlier[key] == Seat::Taken(taken(earlier)[i]);
        assert(seats[key] == Seat::Taken(taken(seats)[i]));
    } else {
        assert(seats[seats.len() - 1] == Seat::Taken(taken(seats)[i]));
    }
}

/// A publish stream that is open ends, and the others of the topic stay as they are; requests go
/// where they went. Ending one that is not open changes nothing.
pub proof fn ending_ends_one_stream(
    before: Topics,
    after: Topics,
    topic: Seq<char>,
    stream: usize,
    other: int,
)
    requires
        ended(before, after, topic, stream),
    ensures
        ({
            let open = before.contains_key(topic) && stream < before[topic].open.len()
                && before[topic].open[stream as int];
            &&& !open ==> after == before
            &&& open ==> {
                &&& after.contains_key(topic)
                &&& after[topic].open.len() == before[topic].open.len()
                &&& !after[topic].open[stream as int]
                &&& 0 <= other < before[topic].open.len() && other != stream
                    ==> after[topic].open[other] == before[topic].open[other]
                &&& after[topic].requests == before[topic].requests
                &&& after[topic].parked == before[topic].parked
            }
        }),
{
}

/// As long as another publish stream of its topic is open, a subscriber keeps its seat when one
/// ends; with the last one it loses it.
pub proof fn seats_last_as_long_as_streams(
    before: Topics,
    after: Topics,
    topic: Seq<char>,
    stream: usize,
    other: int,
    key: int,
)
    requires
        ended(before, after, topic, stream),
        before.contains_key(topic),
        stream < before[topic].open.len(),
        before[topic].open[stream as int],
        0 <= key < before[topic].seats.len(),
    ensures
        0 <= other < before[topic].open.len() && other != stream && before[topic].open[other]
            ==> after[topic].seats == before[topic].seats,
        (forall|i: int|
            0 <= i < before[topic].open.len() && i != stream ==> !#[trigger] before[topic].open[i])
            ==> after[topic].seats[key] == match before[topic].seats[key] {
            Seat::Taken(_) => Seat::Dropped,
            seat => seat,
        },
{
    let open = before[topic].open.update(stream as int, false);
    if 0 <= other < before[topic].open.len() && other != stream && before[topic].open[other] {
        assert(open[other]);
    }
}

/// A topic that is expected and was not known has nobody seated, no publish stream, and one channel
/// for its requests, which waits for the first. A topic that was known is as it was.
pub proof fn expecting_parks_once(before: Topics, after: Topics, topic: Seq<char>)
    requires
        expected(before, after, topic),
    ensures
        after.contains_key(topic),
        before.contains_key(topic) ==> after == before,
        !before.contains_key(topic) ==> {
            &&& after[topic].seats.len() == 0
            &&& after[topic].open == seq![false]
            &&& after[topic].requests.len() == 1
            &&& after[topic].parked matches Some(rx) && request_channel(
                CHANNEL_CAPACITY,
                after[topic].requests[0],
                rx,
            )
        },
{
}

/// One that subscribes gets a seat under its key that nobody had, and nobody else's seat changes.
/// Where the topic was known, its publish streams and its requests stay as they are.
pub proof fn subscribing_takes_a_seat(
    before: Topics,
    after: Topics,
    topic: Seq<char>,
    subscriber: DataTx,
    key: usize,
    other: int,
)
    requires
        subscribed(before, after, topic, subscriber, key),
    ensures
        after.contains_key(topic),
        key < after[topic].seats.len(),
        after[topic].seats[key as int] == Seat::Taken(Arc::new(subscriber)),
        key < topic_of(before, topic).seats.len() ==> before[topic].seats[key as int] is Free,
        0 <= other < topic_of(before, topic).seats.len() && other != key ==> other
            < after[topic].seats.len() && after[topic].seats[other] == before[topic].seats[other],
        before.contains_key(topic) ==> {
            &&& after[topic].open == before[topic].open
            &&& after[topic].requests == before[topic].requests
            &&& after[topic].parked == before[topic].parked
            &&& after[topic].seats.len() <= before[topic].seats.len() + 1
        },
        !before.contains_key(topic) ==> {
            &&& after[topic].seats.len() == 1
            &&& after[topic].open == seq![false]
            &&& after[topic].requests.len() == 1
            &&& after[topic].parked is Some
        },
{
    let known = choose|known: Topics| #[trigger]
        expected(before, known, topic) && noted(known, after, topic, subscriber, key);
    expecting_parks_once(before, known, topic);
}

/// One that leaves frees its seat, and nobody else's changes; the publish streams of the topic and
/// its requests stay as they are.
pub proof fn leaving_frees_a_seat(
    before: Topics,
    after: Topics,
    topic: Seq<char>,
    key: usize,
    other: int,
)
    requires
        left(before, after, topic, key),
    ensures
        before.contains_key(topic) && key < before[topic].seats.len() ==> {
            &&& after.contains_key(topic)
            &&& after[topic].seats.len() == before[topic].seats.len()
            &&& after[topic].seats[key as int] is Free
            &&& 0 <= other < before[topic].seats.len() && other != key
                ==> after[topic].seats[other] == before[topic].seats[other]
            &&& after[topic].open == before[topic].open
            &&& after[topic].requests == before[topic].requests
            &&& after[topic].parked == before[topic].parked
        },
        !(before.contains_key(topic) && key < before[topic].seats.len()) ==> after == before,
{
}

/// The only publish stream of a topic takes the subscribers with it: whoever subscribed while it
/// was open, nobody has a seat once it has ended.
pub proof fn subscribers_go_with_their_only_publisher(
    before: Topics,
    states: Seq<Topics>,
    after: Topics,
    topic: Seq<char>,
    stream: usize,
    rx: SubReqRx,
    given: Seq<Arc<DataTx>>,
)
    requires
        !before.contains_key(topic),
        states.len() >= 1,
        opened(before, states[0], topic, stream, rx, given),
        forall|i: int|
            0 <= i < states.len() - 1 ==> #[trigger] one_subscribed(
                states[i],
                states[i + 1],
                topic,
            ),
        ended(states.last(), after, topic, stream),
    ensures
        after.contains_key(topic),
        taken(after[topic].seats).len() == 0,
        forall|key: int|
            0 <= key < after[topic].seats.len() ==> !(#[trigger] after[topic].seats[key] is Taken),
{
    opened_stream_is_open(before, states[0], topic, stream, rx, given, 0);
    lemma_one_stream(states, topic, states.len() - 1);
    let last = states.last();
    assert(last[topic].open.update(0, false) =~= seq![false]);
    assert(!any_open(seq![false]));
    lemma_dropped(last[topic].seats);
}

/// Somebody subscribed to the topic.
pub open spec fn one_subscribed(before: Topics, after: Topics, topic: Seq<char>) -> bool {
    exists|subscriber: DataTx, key: usize| subscribed(before, after, topic, subscriber, key)
}

proof fn lemma_one_stream(states: Seq<Topics>, topic: Seq<char>, n: int)
    requires
        0 <= n < states.len(),
        states[0].contains_key(topic),
        states[0][topic].open =~= seq![true],
        forall|i: int|
            0 <= i < states.len() - 1 ==> #[trigger] one_subscribed(
                states[i],
                states[i + 1],
                topic,
            ),
    ensures
        states[n].contains_key(topic),
        states[n][topic].open == seq![true],
    decreases n,
{
    if n > 0 {
        lemma_one_stream(states, topic, n - 1);
        assert(one_subscribed(states[n - 1], states[n - 1 + 1], topic));
        let before = states[n - 1];
        let after = states[n];
        let (subscriber, key) = choose|subscriber: DataTx, key: usize|
            subscribed(before, after, topic, subscriber, key);
        subscribing_takes_a_seat(before, after, topic, subscriber, key, 0);
    }
}

} // verus!
