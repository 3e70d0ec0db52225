use rand::rngs::ThreadRng;
use vstd::prelude::*;

use crate::order::{key_le, sort_by_total_order, sorted_by_key, with_key, TotalOrderKey};
use crate::random::random_in;

verus! {

/// The larger of two logical times.
pub open spec fn max_time(a: u64, b: u64) -> u64 {
    if a >= b {
        a
    } else {
        b
    }
}

/// `max_time` is the larger of its two arguments.
pub proof fn lemma_max_time(a: u64, b: u64)
    ensures
        max_time(a, b) >= a,
        max_time(a, b) >= b,
        max_time(a, b) == a || max_time(a, b) == b,
{
}

/// Rule R2 on a Lamport clock: the new time is one more than the larger of
/// the local time and the message's timestamp; it is above both, and equal
/// to one of them plus one.
pub proof fn lemma_time_after_receive(local: u64, remote: u64)
    requires
        local < u64::MAX,
        remote < u64::MAX,
    ensures
        time_after_receive(local, remote) > local,
        time_after_receive(local, remote) > remote,
        time_after_receive(local, remote) == local + 1 || time_after_receive(local, remote)
            == remote + 1,
        local >= remote ==> time_after_receive(local, remote) == local + 1,
        remote >= local ==> time_after_receive(local, remote) == remote + 1,
{
}

/// The local time after rule R2 for a message stamped `remote`.
pub open spec fn time_after_receive(local: u64, remote: u64) -> u64 {
    (max_time(local, remote) + 1) as u64
}

/// Lamport clock: one process's logical clock value.
///
/// The logical time starts at zero and strictly increases on every event.
pub struct LamportClock {
    time: u64,
}

impl View for LamportClock {
    type V = u64;

    closed spec fn view(&self) -> u64 {
        self.time
    }
}

impl LamportClock {
    /// A new clock, with its time at zero.
    pub fn new() -> (clock: Self)
        ensures
            clock@ == 0,
    {
        LamportClock { time: 0 }
    }

    /// Rule R1: advance the clock by one before an event, and return the
    /// new time, which is stamped on the event.
    pub fn tick(&mut self) -> (t: u64)
        requires
            old(self)@ < u64::MAX,
        ensures
            final(self)@ == old(self)@ + 1,
            final(self)@ > old(self)@,
            t == final(self)@,
    {
        self.time = self.time + 1;
        self.time
    }

    /// Rule R2: on receiving a message stamped `remote_time`, take the
    /// maximum of the local and the remote time, then execute R1; return the
    /// new time.
    pub fn update(&mut self, remote_time: u64) -> (t: u64)
        requires
            max_time(old(self)@, remote_time) < u64::MAX,
        ensures
            final(self)@ == max_time(old(self)@, remote_time) + 1,
            final(self)@ > old(self)@,
            final(self)@ > remote_time,
            final(self)@ == old(self)@ + 1 || final(self)@ == remote_time + 1,
            t == final(self)@,
    {
        if remote_time > self.time {
            self.time = remote_time;
        }
        self.time = self.time + 1;
        self.time
    }

    /// The current time, without changing the clock.
    pub fn read(&self) -> (t: u64)
        ensures
            t == self@,
    {
        self.time
    }
}

/// What a message carries: its sender, the sender's logical time at
/// sending, and a text.
pub struct MessageView {
    pub sender_id: usize,
    pub timestamp: u64,
    pub content: Seq<char>,
}

/// A message between processes, stamped with the sender's logical time
/// (rule R2: "each message piggybacks the clock value of its sender at
/// sending time").
pub struct Message {
    sender_id: usize,
    timestamp: u64,
    content: String,
}

impl View for Message {
    type V = MessageView;

    closed spec fn view(&self) -> MessageView {
        MessageView { sender_id: self.sender_id, timestamp: self.timestamp, content: self.content@ }
    }
}

impl Message {
    /// A message from `sender_id`, stamped `timestamp`.
    pub fn new(sender_id: usize, timestamp: u64, content: String) -> (m: Self)
        ensures
            m@ == (MessageView { sender_id, timestamp, content: content@ }),
    {
        Message { sender_id, timestamp, content }
    }

    /// The sending process.
    pub fn sender_id(&self) -> (r: usize)
        ensures
            r == self@.sender_id,
    {
        self.sender_id
    }

    /// The sender's logical time at sending.
    pub fn timestamp(&self) -> (r: u64)
        ensures
            r == self@.timestamp,
    {
        self.timestamp
    }

    /// The message's text.
    pub fn content(&self) -> (r: &str)
        ensures
            r@ == self@.content,
    {
        self.content.as_str()
    }
}

/// What a logged event records: the process, its logical time, and a text.
pub struct EventView {
    pub process_id: usize,
    pub time: u64,
    pub description: Seq<char>,
}

/// An event of one process, logged centrally to be printed in total order.
pub struct Event {
    process_id: usize,
    time: u64,
    description: String,
}

impl View for Event {
    type V = EventView;

    closed spec fn view(&self) -> EventView {
        EventView { process_id: self.process_id, time: self.time, description: self.description@ }
    }
}

impl Event {
    /// An event of process `process_id` at logical time `time`.
    pub fn new(process_id: usize, time: u64, description: String) -> (e: Self)
        ensures
            e@ == (EventView { process_id, time, description: description@ }),
    {
        Event { process_id, time, description }
    }

    /// The key of the total order of events: the logical time, with ties
    /// broken by the process id (Lamport's relation `=>`).
    pub fn total_order_key(&self) -> (k: (u64, usize))
        ensures
            k == (self@.time, self@.process_id),
    {
        (self.time, self.process_id)
    }

    /// The process at which the event happened.
    pub fn process_id(&self) -> (r: usize)
        ensures
            r == self@.process_id,
    {
        self.process_id
    }

    /// The event's logical time.
    pub fn time(&self) -> (r: u64)
        ensures
            r == self@.time,
    {
        self.time
    }

    /// The event's text.
    pub fn description(&self) -> (r: &str)
        ensures
            r@ == self@.description,
    {
        self.description.as_str()
    }
}

impl TotalOrderKey for Event {
    closed spec fn order_key(&self) -> (u64, usize) {
        (self.time, self.process_id)
    }

    fn sort_key(&self) -> (k: (u64, usize)) {
        self.total_order_key()
    }
}

/// The key by which the log orders `e`: its time, then its process.
pub open spec fn event_key(e: EventView) -> (u64, usize) {
    (e.time, e.process_id)
}

/// Puts the logged events into the total order `(logical time, process id)`,
/// keeping the order of arrival among events with the same key.
pub fn order_events(events: Vec<Event>) -> (sorted: Vec<Event>)
    ensures
        sorted_by_key(sorted@),
        forall|k: (u64, usize)| #[trigger] with_key(sorted@, k) == with_key(events@, k),
        sorted@.to_multiset() == events@.to_multiset(),
        forall|i: int| 0 <= i < sorted@.len() ==> #[trigger] sorted@[i].order_key() == event_key(sorted@[i]@),
        forall|i: int, j: int|
            0 <= i < j < sorted@.len() ==> key_le(event_key(sorted@[i]@), event_key(sorted@[j]@)),
{
    let sorted = sort_by_total_order(events);
    proof {
        assert forall|i: int, j: int| 0 <= i < j < sorted@.len() implies key_le(
            event_key(sorted@[i]@),
            event_key(sorted@[j]@),
        ) by {
            assert(key_le(sorted@[i].order_key(), sorted@[j].order_key()));
        }
    }
    sorted
}

/// What a process does next in the simulation.
#[derive(PartialEq, Eq, Structural, Clone, Copy, Debug)]
pub enum Action {
    /// An internal event.
    Internal,
    /// Send a message to a peer.
    Send,
    /// Receive the messages that have arrived.
    Receive,
}

/// The action for a draw `choice` out of a hundred: a third of the draws
/// each for an internal event, a send and a receive.
pub open spec fn action_spec(choice: u64) -> Action {
    if choice < 33 {
        Action::Internal
    } else if choice < 66 {
        Action::Send
    } else {
        Action::Receive
    }
}

/// The draws split into thirds: below 33 an internal event, from 33 to 65
/// a send, from 66 on a receive.
pub proof fn lemma_action_thirds(choice: u64)
    ensures
        choice < 33 ==> action_spec(choice) == Action::Internal,
        33 <= choice < 66 ==> action_spec(choice) == Action::Send,
        66 <= choice ==> action_spec(choice) == Action::Receive,
{
}

/// The action for a draw `choice` out of a hundred.
pub fn action_for_choice(choice: u64) -> (a: Action)
    ensures
        a == action_spec(choice),
        choice < 33 ==> a == Action::Internal,
        33 <= choice < 66 ==> a == Action::Send,
        66 <= choice ==> a == Action::Receive,
{
    if choice < 33 {
        Action::Internal
    } else if choice < 66 {
        Action::Send
    } else {
        Action::Receive
    }
}

/// Draws a number below a hundred and picks the next action by it.
pub fn next_action(rng: &mut ThreadRng) -> (a: Action)
    ensures
        exists|choice: u64| choice < 100 && a == action_spec(choice),
{
    let choice = random_in(rng, 0, 100);
    action_for_choice(choice)
}

/// Draws the pause between two steps, in milliseconds.
pub fn pause_millis(rng: &mut ThreadRng) -> (ms: u64)
    ensures
        10 <= ms < 50,
{
    random_in(rng, 10, 50)
}

/// A process's state as a whole: its id, its logical time, and the ids of
/// the peers it may send to.
pub struct NodeView {
    pub id: usize,
    pub time: u64,
    pub peers: Seq<usize>,
}

/// A process of the distributed system: its id, its Lamport clock and its
/// peers.  The runner that owns its channels asks it what to do on each
/// event and delivers what it answers.
pub struct Node {
    id: usize,
    clock: LamportClock,
    peers: Vec<usize>,
}

impl View for Node {
    type V = NodeView;

    closed spec fn view(&self) -> NodeView {
        NodeView { id: self.id, time: self.clock@, peers: self.peers@ }
    }
}

impl Node {
    /// Process `id` with its clock at zero, and these peers.
    pub fn new(id: usize, peers: Vec<usize>) -> (node: Self)
        ensures
            node@ == (NodeView { id, time: 0, peers: peers@ }),
    {
        Node { id, clock: LamportClock::new(), peers }
    }

    /// The process id.
    pub fn id(&self) -> (r: usize)
        ensures
            r == self@.id,
    {
        self.id
    }

    /// The current logical time.
    pub fn time(&self) -> (r: u64)
        ensures
            r == self@.time,
    {
        self.clock.read()
    }

    /// The number of peers.
    pub fn num_peers(&self) -> (r: usize)
        ensures
            r == self@.peers.len(),
    {
        self.peers.len()
    }

    /// An internal event: rule R1; returns the event's time.
    pub fn handle_internal_event(&mut self) -> (t: u64)
        requires
            old(self)@.time < u64::MAX,
        ensures
            final(self)@ == (NodeView { time: (old(self)@.time + 1) as u64, ..old(self)@ }),
            t == final(self)@.time,
    {
        self.clock.tick()
    }

    /// A send event to the peer at `index` of the peer list: rule R1, then
    /// the message is stamped with the new time.  Returns the peer's id and
    /// the timestamp.
    pub fn send_to(&mut self, index: usize) -> (r: (usize, u64))
        requires
            index < old(self)@.peers.len(),
            old(self)@.time < u64::MAX,
        ensures
            final(self)@ == (NodeView { time: (old(self)@.time + 1) as u64, ..old(self)@ }),
            r == (old(self)@.peers[index as int], final(self)@.time),
    {
        let t = self.clock.tick();
        (self.peers[index], t)
    }

    /// A send event to a peer drawn at random.  With no peers nothing
    /// happens and `None` is returned; else as `send_to` for some index.
    pub fn handle_send_event(&mut self, rng: &mut ThreadRng) -> (r: Option<(usize, u64)>)
        requires
            old(self)@.peers.len() > 0 ==> old(self)@.time < u64::MAX,
        ensures
            old(self)@.peers.len() == 0 ==> r is None && final(self)@ == old(self)@,
            old(self)@.peers.len() > 0 ==> {
                &&& final(self)@ == (NodeView { time: (old(self)@.time + 1) as u64, ..old(self)@ })
                &&& r matches Some((target, t)) && t == final(self)@.time
                    && old(self)@.peers.contains(target)
            },
    {
        if self.peers.len() == 0 {
            return None;
        }
        let n = self.peers.len();
        let index = random_in(rng, 0, n as u64) as usize;
        let r = self.send_to(index);
        proof {
            assert(old(self)@.peers[index as int] == r.0);
        }
        Some(r)
    }

    /// A receive event for `msg`: rule R2.  Returns the new time.
    pub fn handle_receive_event(&mut self, msg: &Message) -> (t: u64)
        requires
            max_time(old(self)@.time, msg@.timestamp) < u64::MAX,
        ensures
            final(self)@ == (NodeView {
                time: time_after_receive(old(self)@.time, msg@.timestamp),
                ..old(self)@
            }),
            t == final(self)@.time,
            t > msg@.timestamp,
            t > old(self)@.time,
            t == old(self)@.time + 1 || t == msg@.timestamp + 1,
            final(self)@.id == old(self)@.id,
            final(self)@.peers == old(self)@.peers,
    {
        self.clock.update(msg.timestamp)
    }

    /// The record of an event of this process at `time`, for the log.
    pub fn log_event(&self, time: u64, description: String) -> (e: Event)
        ensures
            e@ == (EventView { process_id: self@.id, time, description: description@ }),
    {
        Event::new(self.id, time, description)
    }
}

} // verus!
