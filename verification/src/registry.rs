//! Which topics there are, and how subscribers reach the publish streams of a topic.

use std::sync::Arc;

use bytes::Bytes;
use vstd::hash_map::StringHashMap;
use vstd::prelude::*;

verus! {

/// `flume::Sender`, the sending end of a channel.
#[verifier::external_type_specification]
#[verifier::external_body]
#[verifier::reject_recursive_types(T)]
pub struct ExSender<T>(flume::Sender<T>);

/// `flume::Receiver`, the receiving end of a channel.
#[verifier::external_type_specification]
#[verifier::external_body]
#[verifier::reject_recursive_types(T)]
pub struct ExReceiver<T>(flume::Receiver<T>);

/// Sends the publishes of a topic to one subscriber.
pub type DataTx = flume::Sender<Bytes>;

/// Brings a subscriber the publishes of its topic.
pub type DataRx = flume::Receiver<Bytes>;

/// Sends a publish stream the subscribers that want its publishes.
pub type SubReqTx = flume::Sender<DataTx>;

/// Brings a publish stream its subscribers.
pub type SubReqRx = flume::Receiver<DataTx>;

/// How many messages a channel holds before its sender has to wait.
pub const CHANNEL_CAPACITY: usize = 1024;

/// The two are the ends of one channel that holds up to `capacity` subscribe requests: what is
/// sent on the one comes out of the other.
pub uninterp spec fn request_channel(capacity: usize, tx: SubReqTx, rx: SubReqRx) -> bool;

/// The two are the ends of one channel that holds up to `capacity` publishes: what is sent on the
/// one comes out of the other.
pub uninterp spec fn publish_channel(capacity: usize, tx: DataTx, rx: DataRx) -> bool;

/// `flume::bounded` makes a channel of that capacity and returns its two ends.
#[verifier::external_body]
fn bounded_requests(capacity: usize) -> (r: (SubReqTx, SubReqRx))
    ensures
        request_channel(capacity, r.0, r.1),
{
    flume::bounded(capacity)
}

/// `flume::bounded` makes a channel of that capacity and returns its two ends.
#[verifier::external_body]
fn bounded_publishes(capacity: usize) -> (r: (DataTx, DataRx))
    ensures
        publish_channel(capacity, r.0, r.1),
{
    flume::bounded(capacity)
}

/// The channel on which a new subscriber gets its publishes.
pub fn data_channel() -> (r: (DataTx, DataRx))
    ensures
        publish_channel(CHANNEL_CAPACITY, r.0, r.1),
{
    bounded_publishes(CHANNEL_CAPACITY)
}

/// The place of a subscriber of a topic.
pub enum Seat {
    /// It has none: the place can be given to the next.
    Free,
    /// The publish streams of the topic have ended, and so has its own, which has yet to leave.
    Dropped,
    /// It is this subscriber's.
    Taken(Arc<DataTx>),
}

/// What is known of a topic.
struct Topic {
    parked: Option<SubReqRx>,
    requests: Vec<SubReqTx>,
    open: Vec<bool>,
    seats: Vec<Seat>,
}

/// What is known of a topic, with its collections as sequences.
pub struct TopicView {
    /// The receiving end of the topic's first request channel, until a publish stream takes it.
    pub parked: Option<SubReqRx>,
    /// The sending ends of the topic's request channels: one for each publish stream that was
    /// opened, or the one whose other end is parked.
    pub requests: Seq<SubReqTx>,
    /// For each of them, whether the publish stream at its other end is open.
    pub open: Seq<bool>,
    /// Those that have subscribed, by their keys.
    pub seats: Seq<Seat>,
}

impl View for Topic {
    type V = TopicView;

    closed spec fn view(&self) -> TopicView {
        TopicView {
            parked: self.parked,
            requests: self.requests@,
            open: self.open@,
            seats: self.seats@,
        }
    }
}

/// What is known of topics, by their names.
pub type Topics = Map<Seq<char>, TopicView>;

/// There is something to send requests on, and a parked end belongs to it.
pub open spec fn kept(topic: TopicView) -> bool {
    &&& topic.requests.len() >= 1
    &&& topic.open.len() == topic.requests.len()
    &&& topic.parked matches Some(rx) ==> {
        &&& topic.requests.len() == 1
        &&& request_channel(CHANNEL_CAPACITY, topic.requests[0], rx)
        &&& !topic.open[0]
    }
}

/// There are requests parked for the topic.
pub open spec fn waiting(topics: Topics, topic: Seq<char>) -> bool {
    topics.contains_key(topic) && topics[topic].parked is Some
}

/// What is known of the topic: nothing, where it is not known.
pub open spec fn topic_of(topics: Topics, topic: Seq<char>) -> TopicView {
    if topics.contains_key(topic) {
        topics[topic]
    } else {
        TopicView {
            parked: None,
            requests: Seq::empty(),
            open: Seq::empty(),
            seats: Seq::empty(),
        }
    }
}

/// The subscribers that have their seats, in the order of the seats.
pub open spec fn taken(seats: Seq<Seat>) -> Seq<Arc<DataTx>>
    decreases seats.len(),
{
    if seats.len() == 0 {
        Seq::empty()
    } else {
        match seats.last() {
            Seat::Taken(subscriber) => taken(seats.drop_last()).push(subscriber),
            _ => taken(seats.drop_last()),
        }
    }
}

/// The seats once the subscribers that have them are dropped.
pub open spec fn dropped(seats: Seq<Seat>) -> Seq<Seat> {
    seats.map_values(
        |seat: Seat|
            match seat {
                Seat::Taken(_) => Seat::Dropped,
                other => other,
            },
    )
}

/// One of the publish streams is open.
pub open spec fn any_open(open: Seq<bool>) -> bool {
    exists|i: int| 0 <= i < open.len() && #[trigger] open[i]
}

/// A publish stream was opened for the topic, and has the number `stream` among those of the topic.
/// The requests of those that subscribe from now on come out of `rx`; of those that have subscribed
/// already, the requests are in `rx` too if they were parked, and otherwise they are handed over as
/// `given`.
pub open spec fn opened(
    before: Topics,
    after: Topics,
    topic: Seq<char>,
    stream: usize,
    rx: SubReqRx,
    given: Seq<Arc<DataTx>>,
) -> bool {
    let known = topic_of(before, topic);
    &&& after.contains_key(topic)
    &&& stream < after[topic].requests.len()
    &&& request_channel(CHANNEL_CAPACITY, after[topic].requests[stream as int], rx)
    &&& after == before.insert(
        topic,
        TopicView {
            parked: None,
            requests: after[topic].requests,
            open: after[topic].open,
            seats: known.seats,
        },
    )
    &&& if waiting(before, topic) {
        &&& known.parked == Some(rx)
        &&& stream == 0
        &&& after[topic].requests == known.requests
        &&& after[topic].open == known.open.update(0, true)
        &&& given == Seq::<Arc<DataTx>>::empty()
    } else {
        &&& stream == known.requests.len()
        &&& after[topic].requests.drop_last() == known.requests
        &&& after[topic].requests.len() == known.requests.len() + 1
        &&& after[topic].open == known.open.push(true)
        &&& given == taken(known.seats)
    }
}

/// The publish stream with that number ended, if it was open. With the last one of the topic, its
/// subscribers are dropped.
pub open spec fn ended(before: Topics, after: Topics, topic: Seq<char>, stream: usize) -> bool {
    let known = topic_of(before, topic);
    if stream < known.open.len() && known.open[stream as int] {
        let open = known.open.update(stream as int, false);
        after == before.insert(
            topic,
            TopicView {
                open,
                seats: if any_open(open) {
                    known.seats
                } else {
                    dropped(known.seats)
                },
                ..known
            },
        )
    } else {
        after == before
    }
}

/// A new topic became known, and a channel was parked for it: the requests that are sent on it wait
/// there for a publish stream.
pub open spec fn parked(before: Topics, after: Topics, topic: Seq<char>) -> bool {
    &&& after.contains_key(topic)
    &&& after == before.insert(topic, after[topic])
    &&& after[topic].requests.len() == 1
    &&& after[topic].open == seq![false]
    &&& after[topic].seats == Seq::<Seat>::empty()
    &&& after[topic].parked matches Some(rx) && request_channel(
        CHANNEL_CAPACITY,
        after[topic].requests[0],
        rx,
    )
}

/// The topic is known: it was before, or a channel was parked for it.
pub open spec fn expected(before: Topics, after: Topics, topic: Seq<char>) -> bool {
    if before.contains_key(topic) {
        after == before
    } else {
        parked(before, after, topic)
    }
}

/// A subscriber took the seat with that number: the first that was free, or a new one.
pub open spec fn seat_taken(
    before: Seq<Seat>,
    after: Seq<Seat>,
    subscriber: DataTx,
    key: usize,
) -> bool {
    &&& forall|i: int| 0 <= i < key && i < before.len() ==> !(#[trigger] before[i] is Free)
    &&& if key < before.len() {
        &&& before[key as int] is Free
        &&& after == before.update(key as int, Seat::Taken(Arc::new(subscriber)))
    } else {
        &&& key == before.len()
        &&& after == before.push(Seat::Taken(Arc::new(subscriber)))
    }
}

/// A subscriber of a known topic was noted down under a key that no other has.
pub open spec fn noted(
    before: Topics,
    after: Topics,
    topic: Seq<char>,
    subscriber: DataTx,
    key: usize,
) -> bool {
    &&& before.contains_key(topic)
    &&& after.contains_key(topic)
    &&& seat_taken(before[topic].seats, after[topic].seats, subscriber, key)
    &&& after == before.insert(
        topic,
        TopicView { seats: after[topic].seats, ..before[topic] },
    )
}

/// A subscriber was noted down for a topic, which is known from then on.
pub open spec fn subscribed(
    before: Topics,
    after: Topics,
    topic: Seq<char>,
    subscriber: DataTx,
    key: usize,
) -> bool {
    exists|between: Topics| #[trigger]
        expected(before, between, topic) && noted(between, after, topic, subscriber, key)
}

/// The subscriber with that key left the topic, if there was one.
pub open spec fn left(before: Topics, after: Topics, topic: Seq<char>, key: usize) -> bool {
    let known = topic_of(before, topic);
    if key < known.seats.len() {
        after == before.insert(
            topic,
            TopicView { seats: known.seats.update(key as int, Seat::Free), ..known },
        )
    } else {
        after == before
    }
}

/// The topics of a server.
///
/// A subscriber is noted down here so that publish streams that are opened later get it too. It is
/// let go of when its own stream has ended, and when the last publish stream of its topic has: the
/// sender to it then lives nowhere any more, and its own stream ends with that.
pub struct Registry {
    topics: Vec<Topic>,
    index: StringHashMap<usize>,
}

impl View for Registry {
    type V = Topics;

    closed spec fn view(&self) -> Topics {
        self.index@.map_values(|i: usize| self.topics@[i as int]@)
    }
}

impl Registry {
    /// Each topic has a place of its own, and what is known of it hangs together.
    pub closed spec fn wf(&self) -> bool {
        &&& forall|name: Seq<char>| #[trigger]
            self.index@.contains_key(name) ==> self.index@[name] < self.topics@.len()
        &&& forall|a: Seq<char>, b: Seq<char>|
            self.index@.contains_key(a) && self.index@.contains_key(b) && #[trigger] self.index@[a]
                == #[trigger] self.index@[b] ==> a == b
        &&& forall|i: int| 0 <= i < self.topics@.len() ==> kept((#[trigger] self.topics@[i])@)
    }

    /// A registry without topics.
    pub fn new() -> (r: Registry)
        ensures
            r.wf(),
            r@ == Topics::empty(),
    {
        let r = Registry { topics: Vec::new(), index: StringHashMap::new() };
        assert(r@ =~= Topics::empty());
        r
    }

    /// The place of a topic.
    fn place(&self, topic: &str) -> (r: Option<usize>)
        requires
            self.wf(),
        ensures
            match r {
                Some(i) => self.index@.contains_key(topic@) && self.index@[topic@] == i && i
                    < self.topics@.len(),
                None => !self.index@.contains_key(topic@),
            },
    {
        match self.index.get(topic) {
            Some(i) => Some(*i),
            None => None,
        }
    }

    /// Puts down what is known of a new topic.
    fn put(&mut self, name: String, topic: Topic)
        requires
            old(self).wf(),
            kept(topic@),
            !old(self)@.contains_key(name@),
        ensures
            final(self).wf(),
            final(self)@ == old(self)@.insert(name@, topic@),
    {
        let i: usize = self.topics.len();
        self.topics.push(topic);
        self.index.insert(name, i);
        assert(self@ =~= old(self)@.insert(name@, topic@));
    }

    /// Opens a publish stream for a topic. The requests that subscribers of the topic send from now
    /// on come out of the channel that is returned. So do those that were parked for the topic;
    /// where there are none, the subscribers that the topic has already are returned with it, and
    /// so is the number of the stream, by which it is to [`end()`].
    ///
    /// A topic can have any number of publish streams.
    ///
    /// [`end()`]: `Registry::end`
    pub fn publish(&mut self, topic: String) -> (r: (usize, SubReqRx, Vec<Arc<DataTx>>))
        requires
            old(self).wf(),
        ensures
            final(self).wf(),
            opened(old(self)@, final(self)@, topic@, r.0, r.1, r.2@),
    {
        match self.place(topic.as_str()) {
            Some(i) => {
                let ghost before = self.topics@[i as int]@;
                let parked = self.topics[i].parked.take();
                match parked {
                    Some(rx) => {
                        self.topics[i].open.set(0, true);
                        let ghost after = self.topics@[i as int]@;
                        assert(after == (TopicView {
                            parked: None,
                            open: before.open.update(0, true),
                            ..before
                        }));
                        assert(self@ =~= old(self)@.insert(topic@, after));
                        (0, rx, Vec::new())
                    },
                    None => {
                        let given = taken_seats(&self.topics[i].seats);
                        let (tx, rx) = bounded_requests(CHANNEL_CAPACITY);
                        let stream: usize = self.topics[i].requests.len();
                        self.topics[i].requests.push(tx);
                        self.topics[i].open.push(true);
                        let ghost after = self.topics@[i as int]@;
                        assert(after.requests == before.requests.push(tx));
                        assert(after.requests.drop_last() == before.requests);
                        assert(self@ =~= old(self)@.insert(topic@, after));
                        (stream, rx, given)
                    },
                }
            },
            None => {
                let (tx, rx) = bounded_requests(CHANNEL_CAPACITY);
                let requests = vec![tx];
                let open = vec![true];
                let entry = Topic { parked: None, requests, open, seats: Vec::new() };
                assert(entry@.requests[0] == tx);
                assert(entry@.requests.drop_last() == Seq::<SubReqTx>::empty());
                assert(entry@.open == Seq::<bool>::empty().push(true));
                self.put(topic, entry);
                (0, rx, Vec::new())
            },
        }
    }

    /// Notes down that a publish stream of a topic has ended. With the last one the subscribers of
    /// the topic are let go of: nothing more can come in for them.
    pub fn end(&mut self, topic: &str, stream: usize)
        requires
            old(self).wf(),
        ensures
            final(self).wf(),
            ended(old(self)@, final(self)@, topic@, stream),
    {
        if let Some(i) = self.place(topic) {
            let ghost before = self.topics@[i as int]@;
            if stream < self.topics[i].open.len() && self.topics[i].open[stream] {
                self.topics[i].open.set(stream, false);
                let ghost open = before.open.update(stream as int, false);
                assert(self.topics@[i as int]@.open == open);
                if !is_any_open(&self.topics[i].open) {
                    let seats = drop_seats(&self.topics[i].seats);
                    self.topics[i].seats = seats;
                }
                let ghost after = self.topics@[i as int]@;
                assert(after == (TopicView {
                    open,
                    seats: if any_open(open) {
                        before.seats
                    } else {
                        dropped(before.seats)
                    },
                    ..before
                }));
                assert(self@ =~= old(self)@.insert(topic@, after));
            }
        }
    }

    /// Makes a topic known that has no publish stream yet: the requests that are sent for it from
    /// now on wait until there is one. A topic that is known stays as it is.
    pub fn expect(&mut self, topic: String)
        requires
            old(self).wf(),
        ensures
            final(self).wf(),
            if old(self)@.contains_key(topic@) {
                final(self)@ == old(self)@
            } else {
                parked(old(self)@, final(self)@, topic@)
            },
    {
        if self.place(topic.as_str()).is_none() {
            let (tx, rx) = bounded_requests(CHANNEL_CAPACITY);
            let requests = vec![tx];
            let open = vec![false];
            let entry = Topic { parked: Some(rx), requests, open, seats: Vec::new() };
            assert(entry@.requests[0] == tx);
            assert(entry@.open == seq![false]);
            self.put(topic, entry);
        }
    }

    /// Notes down a subscriber of a topic, so that the publish streams that are opened later get it
    /// too, and returns its key, which no other has until it has to [`leave()`]. The topic is known
    /// from then on.
    ///
    /// Its request is to be sent on each of the channels that [`requests()`] gives. They have to be
    /// asked for before anything else happens to the registry; the sending itself can wait.
    ///
    /// [`leave()`]: `Registry::leave`
    /// [`requests()`]: `Registry::requests`
    pub fn subscribe(&mut self, topic: String, subscriber: DataTx) -> (key: usize)
        requires
            old(self).wf(),
        ensures
            final(self).wf(),
            subscribed(old(self)@, final(self)@, topic@, subscriber, key),
    {
        let name = topic.clone();
        self.expect(topic);
        let ghost between = self@;
        match self.place(name.as_str()) {
            Some(i) => {
                let ghost before = self.topics@[i as int]@;
                let key: usize = free_seat(&self.topics[i].seats);
                let seat = Seat::Taken(Arc::new(subscriber));
                if key < self.topics[i].seats.len() {
                    self.topics[i].seats.set(key, seat);
                } else {
                    self.topics[i].seats.push(seat);
                }
                let ghost after = self.topics@[i as int]@;
                assert(seat_taken(before.seats, after.seats, subscriber, key));
                assert(after == (TopicView { seats: after.seats, ..before }));
                assert(self@ =~= between.insert(name@, after));
                assert(expected(old(self)@, between, name@));
                key
            },
            None => vstd::pervasive::unreached(),
        }
    }

    /// Where to send a subscribe request for the topic, if it is known: to each of its publish
    /// streams, or to the channel that is parked for the first of them.
    pub fn requests(&self, topic: &str) -> (r: Option<&Vec<SubReqTx>>)
        requires
            self.wf(),
        ensures
            match r {
                Some(requests) => {
                    &&& self@.contains_key(topic@)
                    &&& requests@ == self@[topic@].requests
                    &&& requests@.len() >= 1
                },
                None => !self@.contains_key(topic@),
            },
    {
        match self.place(topic) {
            Some(i) => Some(&self.topics[i].requests),
            None => None,
        }
    }

    /// Forgets the subscriber of a topic that has this key: its stream has ended. The key can then
    /// be given to the next.
    pub fn leave(&mut self, topic: &str, key: usize)
        requires
            old(self).wf(),
        ensures
            final(self).wf(),
            left(old(self)@, final(self)@, topic@, key),
    {
        if let Some(i) = self.place(topic) {
            let ghost before = self.topics@[i as int]@;
            if key < self.topics[i].seats.len() {
                self.topics[i].seats.set(key, Seat::Free);
                let ghost after = self.topics@[i as int]@;
                assert(after == (TopicView {
                    seats: before.seats.update(key as int, Seat::Free),
                    ..before
                }));
                assert(self@ =~= old(self)@.insert(topic@, after));
            }
        }
    }
}

/// The subscribers that have their seats, in the order of the seats.
fn taken_seats(seats: &Vec<Seat>) -> (r: Vec<Arc<DataTx>>)
    ensures
        r@ == taken(seats@),
{
    let mut r: Vec<Arc<DataTx>> = Vec::new();
    let mut i: usize = 0;
    while i < seats.len()
        invariant
            0 <= i <= seats@.len(),
            r@ == taken(seats@.take(i as int)),
        decreases seats@.len() - i,
    {
        if let Seat::Taken(subscriber) = &seats[i] {
            r.push(subscriber.clone());
        }
        i += 1;
        assert(seats@.take(i as int).drop_last() == seats@.take(i - 1));
    }
    assert(seats@.take(i as int) == seats@);
    r
}

/// The seats once the subscribers that have them are dropped.
fn drop_seats(seats: &Vec<Seat>) -> (r: Vec<Seat>)
    ensures
        r@ == dropped(seats@),
{
    let mut r: Vec<Seat> = Vec::new();
    let mut i: usize = 0;
    while i < seats.len()
        invariant
            0 <= i <= seats@.len(),
            r@ == dropped(seats@).take(i as int),
        decreases seats@.len() - i,
    {
        match &seats[i] {
            Seat::Free => r.push(Seat::Free),
            _ => r.push(Seat::Dropped),
        }
        i += 1;
        assert(dropped(seats@).take(i as int) == dropped(seats@).take(i - 1).push(
            dropped(seats@)[i - 1],
        ));
    }
    assert(dropped(seats@).take(i as int) == dropped(seats@));
    r
}

/// The number of the first free seat, or of a new one where there is none.
fn free_seat(seats: &Vec<Seat>) -> (key: usize)
    ensures
        key <= seats@.len(),
        key < seats@.len() ==> seats@[key as int] is Free,
        forall|i: int| 0 <= i < key ==> !(#[trigger] seats@[i] is Free),
{
    let mut i: usize = 0;
    while i < seats.len()
        invariant
            0 <= i <= seats@.len(),
            forall|j: int| 0 <= j < i ==> !(#[trigger] seats@[j] is Free),
        decreases seats@.len() - i,
    {
        if let Seat::Free = &seats[i] {
            return i;
        }
        i += 1;
    }
    i
}

/// Whether one of the publish streams is open.
fn is_any_open(open: &Vec<bool>) -> (r: bool)
    ensures
        r == any_open(open@),
{
    let mut i: usize = 0;
    while i < open.len()
        invariant
            0 <= i <= open@.len(),
            forall|j: int| 0 <= j < i ==> !#[trigger] open@[j],
        decreases open@.len() - i,
    {
        if open[i] {
            return true;
        }
        i += 1;
    }
    false
}

} // verus!
