use core::cmp::Ordering;
use rand::rngs::ThreadRng;
use vstd::prelude::*;

use crate::causality::causal_order;
use crate::lamport_clock::max_time;
use crate::order::{key_le, sort_by_total_order, sorted_by_key, with_key, TotalOrderKey};
use crate::random::random_in;

verus! {

/// The sum of the components of a vector time.
pub open spec fn sum(s: Seq<u64>) -> int
    decreases s.len(),
{
    if s.len() == 0 {
        0
    } else {
        sum(s.drop_last()) + s.last()
    }
}

/// The component-wise maximum of two vector times, as long as the first.
pub open spec fn merge(a: Seq<u64>, b: Seq<u64>) -> Seq<u64> {
    Seq::new(a.len(), |i: int| max_time(a[i], b[i]))
}

/// Rule R1 on a vector time: the component of `process_id` advanced by one.
pub open spec fn advanced(s: Seq<u64>, process_id: usize) -> Seq<u64> {
    s.update(process_id as int, (s[process_id as int] + 1) as u64)
}

/// Rule R2 on a vector time: merge the received time, then execute R1.
pub open spec fn received(own: Seq<u64>, other: Seq<u64>, process_id: usize) -> Seq<u64> {
    advanced(merge(own, other), process_id)
}

/// Rule R1 can be executed on `s` for `process_id`: the component exists and
/// does not overflow.
pub open spec fn can_advance(s: Seq<u64>, process_id: usize) -> bool {
    process_id < s.len() && s[process_id as int] < u64::MAX
}

/// Rule R2 can be executed on `own` for a message stamped `other`: the two
/// times have the same length and the merged own component does not
/// overflow.
pub open spec fn can_receive(own: Seq<u64>, other: Seq<u64>, process_id: usize) -> bool {
    own.len() == other.len() && process_id < own.len() && max_time(
        own[process_id as int],
        other[process_id as int],
    ) < u64::MAX
}

/// Vector clock: for each process of the system, the number of its events
/// that the owner knows of.
///
/// Each component never decreases, and the owner's own component strictly
/// increases on each of its events.
pub struct VectorClock {
    times: Vec<u64>,
}

impl View for VectorClock {
    type V = Seq<u64>;

    closed spec fn view(&self) -> Seq<u64> {
        self.times@
    }
}

impl VectorClock {
    /// A vector clock for `num_nodes` processes, with all times zero.
    pub fn new(num_nodes: usize) -> (clock: Self)
        ensures
            clock@ == Seq::new(num_nodes as nat, |i: int| 0u64),
    {
        let mut times: Vec<u64> = Vec::new();
        let mut i: usize = 0;
        while i < num_nodes
            invariant
                i <= num_nodes,
                times@ == Seq::new(i as nat, |j: int| 0u64),
            decreases num_nodes - i,
        {
            times.push(0);
            i = i + 1;
        }
        VectorClock { times }
    }

    /// Rule R1: "before executing an event, p_i updates its local logical
    /// time: vt_i[i] := vt_i[i] + 1".
    pub fn tick(&mut self, process_id: usize)
        requires
            can_advance(old(self)@, process_id),
        ensures
            final(self)@ == advanced(old(self)@, process_id),
    {
        let t = self.times[process_id];
        self.times.set(process_id, t + 1);
    }

    /// Rule R2: on receiving a message stamped with the vector time `other`,
    /// take the component-wise maximum, then execute R1 for `my_process_id`.
    pub fn update(&mut self, other: &Self, my_process_id: usize)
        requires
            can_receive(old(self)@, other@, my_process_id),
        ensures
            final(self)@ == received(old(self)@, other@, my_process_id),
    {
        let n = self.times.len();
        let mut i: usize = 0;
        while i < n
            invariant
                n == self.times@.len(),
                n == other@.len(),
                i <= n,
                forall|j: int| 0 <= j < i ==> self.times@[j] == max_time(old(self)@[j], other@[j]),
                forall|j: int| i <= j < n ==> self.times@[j] == old(self)@[j],
            decreases n - i,
        {
            let local = self.times[i];
            let remote = other.times[i];
            if remote > local {
                self.times.set(i, remote);
            }
            i = i + 1;
        }
        proof {
            assert(self.times@ == merge(old(self)@, other@));
        }
        self.tick(my_process_id);
    }

    /// The number of processes.
    pub fn len(&self) -> (n: usize)
        ensures
            n == self@.len(),
    {
        self.times.len()
    }

    /// The whole vector time, without changing it.
    pub fn read(&self) -> (times: &[u64])
        ensures
            times@ == self@,
    {
        self.times.as_slice()
    }

    /// A copy of the vector clock.
    pub fn clone(&self) -> (copy: Self)
        ensures
            copy@ == self@,
    {
        let mut times: Vec<u64> = Vec::new();
        let mut i: usize = 0;
        while i < self.times.len()
            invariant
                i <= self.times@.len(),
                times@ == self.times@.take(i as int),
            decreases self.times@.len() - i,
        {
            times.push(self.times[i]);
            i = i + 1;
            proof {
                assert(times@ == self.times@.take(i as int));
            }
        }
        proof {
            assert(self.times@.take(self.times@.len() as int) == self.times@);
        }
        VectorClock { times }
    }
}

/// The sum of a prefix is its predecessor's plus the last component.
proof fn lemma_sum_take(s: Seq<u64>, i: int)
    requires
        0 <= i < s.len(),
    ensures
        sum(s.take(i + 1)) == sum(s.take(i)) + s[i],
{
    assert(s.take(i + 1).drop_last() == s.take(i));
}

/// A prefix sums to no more than the whole.
proof fn lemma_sum_take_le(s: Seq<u64>, i: int)
    requires
        0 <= i <= s.len(),
    ensures
        sum(s.take(i)) <= sum(s),
    decreases s.len() - i,
{
    if i < s.len() {
        lemma_sum_take(s, i);
        lemma_sum_take_le(s, i + 1);
    } else {
        assert(s.take(i) == s);
    }
}

/// The components of a vector time sum to a non-negative number.
pub proof fn lemma_sum_nonnegative(s: Seq<u64>)
    ensures
        sum(s) >= 0,
    decreases s.len(),
{
    if s.len() > 0 {
        lemma_sum_nonnegative(s.drop_last());
    }
}

/// Setting one component to `v` changes the sum by the difference.
pub proof fn lemma_sum_update(s: Seq<u64>, i: int, v: u64)
    requires
        0 <= i < s.len(),
    ensures
        sum(s.update(i, v)) == sum(s) - s[i] + v,
    decreases s.len(),
{
    if i == s.len() - 1 {
        assert(s.update(i, v).drop_last() == s.drop_last());
    } else {
        lemma_sum_update(s.drop_last(), i, v);
        assert(s.update(i, v).drop_last() == s.drop_last().update(i, v));
    }
}

/// Rule R1 raises the own component by one and leaves the others as they
/// were; so no component decreases, one increases, and the sum of the
/// components grows by exactly one.
pub proof fn lemma_advanced(s: Seq<u64>, process_id: usize)
    requires
        can_advance(s, process_id),
    ensures
        advanced(s, process_id).len() == s.len(),
        advanced(s, process_id)[process_id as int] == s[process_id as int] + 1,
        forall|i: int|
            0 <= i < s.len() && i != process_id ==> #[trigger] advanced(s, process_id)[i] == s[i],
        forall|i: int| 0 <= i < s.len() ==> s[i] <= #[trigger] advanced(s, process_id)[i],
        exists|i: int| 0 <= i < s.len() && s[i] < #[trigger] advanced(s, process_id)[i],
        sum(advanced(s, process_id)) == sum(s) + 1,
{
    let i = process_id as int;
    lemma_sum_update(s, i, (s[i] + 1) as u64);
    assert(s[i] < advanced(s, process_id)[i]);
}

/// Rule R2 leaves every component at least as large as in either the local
/// or the received time, and the own component larger than in both.  When
/// the sender knows of no more events of the receiver than the receiver
/// itself (as in any run of the protocol), the own component rises by
/// exactly one: `VC_i[i]` counts the events of process `i`.
pub proof fn lemma_received(own: Seq<u64>, other: Seq<u64>, process_id: usize)
    requires
        can_receive(own, other, process_id),
    ensures
        received(own, other, process_id).len() == own.len(),
        forall|i: int|
            0 <= i < own.len() ==> own[i] <= #[trigger] received(own, other, process_id)[i]
                && other[i] <= received(own, other, process_id)[i],
        exists|i: int|
            0 <= i < own.len() && own[i] < #[trigger] received(own, other, process_id)[i]
                && other[i] < received(own, other, process_id)[i],
        other[process_id as int] <= own[process_id as int] ==> received(
            own,
            other,
            process_id,
        )[process_id as int] == own[process_id as int] + 1,
        forall|i: int|
            0 <= i < own.len() && i != process_id ==> (#[trigger] received(
                own,
                other,
                process_id,
            )[i] == own[i] || received(own, other, process_id)[i] == other[i]),
        received(own, other, process_id)[process_id as int] == own[process_id as int] + 1
            || received(own, other, process_id)[process_id as int] == other[process_id as int] + 1,
{
    let m = merge(own, other);
    lemma_advanced(m, process_id);
    let i = process_id as int;
    assert(own[i] < received(own, other, process_id)[i]);
}

/// What a message carries: its sender, the sender's vector time at
/// sending, and a text.
pub struct MessageView {
    pub sender_id: usize,
    pub timestamps: Seq<u64>,
    pub content: Seq<char>,
}

/// A message between processes, stamped with the sender's vector time
/// ("each sender process piggybacks a message m with its vector clock
/// value at sending time").
pub struct Message {
    sender_id: usize,
    timestamps: VectorClock,
    content: String,
}

impl View for Message {
    type V = MessageView;

    closed spec fn view(&self) -> MessageView {
        MessageView {
            sender_id: self.sender_id,
            timestamps: self.timestamps@,
            content: self.content@,
        }
    }
}

impl Message {
    /// A message from `sender_id`, stamped `timestamps`.
    pub fn new(sender_id: usize, timestamps: VectorClock, content: String) -> (m: Self)
        ensures
            m@ == (MessageView { sender_id, timestamps: timestamps@, content: content@ }),
    {
        Message { sender_id, timestamps, content }
    }

    /// The sending process.
    pub fn sender_id(&self) -> (r: usize)
        ensures
            r == self@.sender_id,
    {
        self.sender_id
    }

    /// The sender's vector time at sending.
    pub fn timestamps(&self) -> (r: &VectorClock)
        ensures
            r@ == self@.timestamps,
    {
        &self.timestamps
    }

    /// The message's text.
    pub fn content(&self) -> (r: &str)
        ensures
            r@ == self@.content,
    {
        self.content.as_str()
    }
}

/// What a logged event records.
pub struct EventView {
    pub process_id: usize,
    pub local_time: u64,
    pub clock_sum: u64,
    pub clock: Seq<u64>,
    pub description: Seq<char>,
}

/// An event of one process, logged centrally to be printed in total order.
pub struct Event {
    process_id: usize,
    local_time: u64,
    clock_sum: u64,
    clock: Vec<u64>,
    description: String,
}

impl View for Event {
    type V = EventView;

    closed spec fn view(&self) -> EventView {
        EventView {
            process_id: self.process_id,
            local_time: self.local_time,
            clock_sum: self.clock_sum,
            clock: self.clock@,
            description: self.description@,
        }
    }
}

/// The record of an event of `process_id` at vector time `clock`.
pub open spec fn event_of(process_id: usize, clock: Seq<u64>, description: Seq<char>) -> EventView {
    EventView {
        process_id,
        local_time: clock[process_id as int],
        clock_sum: sum(clock) as u64,
        clock,
        description,
    }
}

/// A recorded event keeps the process, the process's own component of the
/// vector time as its local time, the sum of all the components, the whole
/// vector time, and the text.
pub proof fn lemma_event_of(process_id: usize, clock: Seq<u64>, description: Seq<char>)
    requires
        can_record(process_id, clock),
    ensures
        event_of(process_id, clock, description).process_id == process_id,
        event_of(process_id, clock, description).local_time == clock[process_id as int],
        event_of(process_id, clock, description).clock_sum == sum(clock),
        event_of(process_id, clock, description).clock == clock,
        event_of(process_id, clock, description).description == description,
{
    lemma_sum_nonnegative(clock);
}

/// The sum of a concatenation is the sum of the sums, and a single
/// component sums to itself; with the empty sum zero, this fixes `sum`.
pub proof fn lemma_sum_concat(s: Seq<u64>, t: Seq<u64>)
    ensures
        sum(s + t) == sum(s) + sum(t),
        sum(Seq::<u64>::empty()) == 0,
        t.len() == 1 ==> sum(t) == t[0],
    decreases t.len(),
{
    if t.len() > 0 {
        assert((s + t).drop_last() == s + t.drop_last());
        lemma_sum_concat(s, t.drop_last());
    } else {
        assert(s + t == s);
    }
    if t.len() == 1 {
        assert(t.drop_last() == Seq::<u64>::empty());
    }
}

/// An event can be recorded for `process_id` at vector time `clock`: the
/// process has a component and the sum of the components fits in a `u64`.
pub open spec fn can_record(process_id: usize, clock: Seq<u64>) -> bool {
    process_id < clock.len() && sum(clock) <= u64::MAX
}

impl Event {
    /// The record of an event of `process_id` at the vector time of `clock`:
    /// its own component, the sum of all components, and the whole time.
    pub fn new(process_id: usize, clock: &VectorClock, description: String) -> (e: Self)
        requires
            can_record(process_id, clock@),
        ensures
            e@ == event_of(process_id, clock@, description@),
            e@.process_id == process_id,
            e@.local_time == clock@[process_id as int],
            e@.clock_sum == sum(clock@),
            e@.clock == clock@,
            e@.description == description@,
    {
        let times = clock.read();
        let n = times.len();
        let mut total: u64 = 0;
        let mut copy: Vec<u64> = Vec::new();
        let mut i: usize = 0;
        while i < n
            invariant
                n == times@.len(),
                times@ == clock@,
                sum(clock@) <= u64::MAX,
                i <= n,
                total == sum(times@.take(i as int)),
                copy@ == times@.take(i as int),
            decreases n - i,
        {
            proof {
                lemma_sum_take(times@, i as int);
                lemma_sum_take_le(times@, i as int + 1);
            }
            total = total + times[i];
            copy.push(times[i]);
            i = i + 1;
            proof {
                assert(copy@ == times@.take(i as int));
            }
        }
        proof {
            assert(times@.take(n as int) == times@);
        }
        Event {
            process_id,
            local_time: times[process_id],
            clock_sum: total,
            clock: copy,
            description,
        }
    }

    /// The key of the total order of events: the sum of the vector time's
    /// components, with ties broken by the process id.
    ///
    /// The sum strictly increases along every causal chain (R1 adds one to a
    /// component and R2 takes a component-wise maximum first), so sorting
    /// by it extends the happened-before order.
    pub fn total_order_key(&self) -> (k: (u64, usize))
        ensures
            k == (self@.clock_sum, self@.process_id),
    {
        (self.clock_sum, self.process_id)
    }

    /// The process at which the event happened.
    pub fn process_id(&self) -> (r: usize)
        ensures
            r == self@.process_id,
    {
        self.process_id
    }

    /// The process's own component of the event's vector time.
    pub fn local_time(&self) -> (r: u64)
        ensures
            r == self@.local_time,
    {
        self.local_time
    }

    /// The sum of the components of the event's vector time.
    pub fn clock_sum(&self) -> (r: u64)
        ensures
            r == self@.clock_sum,
    {
        self.clock_sum
    }

    /// The event's vector time.
    pub fn clock(&self) -> (r: &[u64])
        ensures
            r@ == self@.clock,
    {
        self.clock.as_slice()
    }

    /// The event's text.
    pub fn description(&self) -> (r: &str)
        ensures
            r@ == self@.description,
    {
        self.description.as_str()
    }
}

impl TotalOrderKey for Event {
    closed spec fn order_key(&self) -> (u64, usize) {
        (self.clock_sum, self.process_id)
    }

    fn sort_key(&self) -> (k: (u64, usize)) {
        self.total_order_key()
    }
}

/// The key by which the log orders `e`: its clock sum, then its process.
pub open spec fn event_key(e: EventView) -> (u64, usize) {
    (e.clock_sum, e.process_id)
}

/// Puts the logged events into the total order `(clock sum, process id)`,
/// keeping the order of arrival among events with the same key.
pub fn order_events(events: Vec<Event>) -> (sorted: Vec<Event>)
    ensures
        sorted_by_key(sorted@),
        forall|k: (u64, usize)| #[trigger] with_key(sorted@, k) == with_key(events@, k),
        sorted@.to_multiset() == events@.to_multiset(),
        forall|i: int| 0 <= i < sorted@.len() ==> #[trigger] sorted@[i].order_key() == event_key(sorted@[i]@),
        forall|i: int, j: int|
            0 <= i < j < sorted@.len() ==> key_le(event_key(sorted@[i]@), event_key(sorted@[j]@)),
{
    let sorted = sort_by_total_order(events);
    proof {
        assert forall|i: int, j: int| 0 <= i < j < sorted@.len() implies key_le(
            event_key(sorted@[i]@),
            event_key(sorted@[j]@),
        ) by {
            assert(key_le(sorted@[i].order_key(), sorted@[j].order_key()));
        }
    }
    sorted
}

/// What a process does on one step of the simulation.
#[derive(PartialEq, Eq, Structural, Clone, Copy, Debug)]
pub enum Plan {
    /// That many internal events in a row.
    Internal(u64),
    /// That many rounds of receiving the messages that have arrived.
    Receive(u64),
    /// Send a message to a peer.
    Send,
}

/// The plan for step number `step`: every ninth step a burst of `burst`
/// internal events, which pushes the local clock ahead; every fifth step
/// three rounds of receiving; otherwise, by a draw `choice` out of a
/// hundred, a receive (45 in 100), an internal event (25 in 100) or a send.
pub open spec fn plan_spec(step: u64, burst: u64, choice: u64) -> Plan {
    if step % 9 == 0 {
        Plan::Internal(burst)
    } else if step % 5 == 0 {
        Plan::Receive(3)
    } else if choice < 45 {
        Plan::Receive(1)
    } else if choice < 70 {
        Plan::Internal(1)
    } else {
        Plan::Send
    }
}

/// Every ninth step is a burst of `burst` internal events; every other
/// fifth step is three rounds of receiving; on the rest a draw below 45
/// receives, from 45 to 69 makes an internal event, and from 70 on sends.
pub proof fn lemma_plan_schedule(step: u64, burst: u64, choice: u64)
    ensures
        step % 9 == 0 ==> plan_spec(step, burst, choice) == Plan::Internal(burst),
        step % 9 != 0 && step % 5 == 0 ==> plan_spec(step, burst, choice) == Plan::Receive(3),
        step % 9 != 0 && step % 5 != 0 && choice < 45 ==> plan_spec(step, burst, choice)
            == Plan::Receive(1),
        step % 9 != 0 && step % 5 != 0 && 45 <= choice < 70 ==> plan_spec(step, burst, choice)
            == Plan::Internal(1),
        step % 9 != 0 && step % 5 != 0 && 70 <= choice ==> plan_spec(step, burst, choice)
            == Plan::Send,
{
}

/// The plan for step number `step`, given the two draws.
pub fn plan_step(step: u64, burst: u64, choice: u64) -> (p: Plan)
    ensures
        p == plan_spec(step, burst, choice),
        step % 9 == 0 ==> p == Plan::Internal(burst),
        step % 9 != 0 && step % 5 == 0 ==> p == Plan::Receive(3),
        step % 9 != 0 && step % 5 != 0 && choice < 45 ==> p == Plan::Receive(1),
        step % 9 != 0 && step % 5 != 0 && 45 <= choice < 70 ==> p == Plan::Internal(1),
        step % 9 != 0 && step % 5 != 0 && 70 <= choice ==> p == Plan::Send,
{
    if step % 9 == 0 {
        Plan::Internal(burst)
    } else if step % 5 == 0 {
        Plan::Receive(3)
    } else if choice < 45 {
        Plan::Receive(1)
    } else if choice < 70 {
        Plan::Internal(1)
    } else {
        Plan::Send
    }
}

/// Plans step number `step`, drawing a burst length from 3 to 6 on every
/// ninth step and an action out of a hundred on the others that are not a
/// fifth.
pub fn next_plan(step: u64, rng: &mut ThreadRng) -> (p: Plan)
    ensures
        exists|burst: u64, choice: u64|
            3 <= burst < 7 && choice < 100 && p == plan_spec(step, burst, choice),
        step % 9 == 0 ==> (p matches Plan::Internal(b) && 3 <= b < 7),
        step % 9 != 0 && step % 5 == 0 ==> p == Plan::Receive(3),
        step % 9 != 0 && step % 5 != 0 ==> (p == Plan::Receive(1) || p == Plan::Internal(1)
            || p == Plan::Send),
{
    if step % 9 == 0 {
        let burst = random_in(rng, 3, 7);
        let p = plan_step(step, burst, 0);
        assert(p == plan_spec(step, burst, 0));
        p
    } else if step % 5 == 0 {
        let p = plan_step(step, 3, 0);
        assert(p == plan_spec(step, 3, 0));
        p
    } else {
        let choice = random_in(rng, 0, 100);
        let p = plan_step(step, 3, choice);
        assert(p == plan_spec(step, 3, choice));
        p
    }
}

/// Draws the pause between two steps, in milliseconds.
pub fn pause_millis(rng: &mut ThreadRng) -> (ms: u64)
    ensures
        10 <= ms < 50,
{
    random_in(rng, 10, 50)
}

/// A process's state as a whole: its id, its vector time, and the ids of
/// the peers it may send to.
pub struct NodeView {
    pub id: usize,
    pub clock: Seq<u64>,
    pub peers: Seq<usize>,
}

/// A process of the distributed system: its id, its vector clock and its
/// peers.  The runner that owns its channels asks it what to do on each
/// event and delivers what it answers.
pub struct Node {
    id: usize,
    clock: VectorClock,
    peers: Vec<usize>,
}

impl View for Node {
    type V = NodeView;

    closed spec fn view(&self) -> NodeView {
        NodeView { id: self.id, clock: self.clock@, peers: self.peers@ }
    }
}

impl Node {
    /// Process `id` of `num_nodes`, with all times zero, and these peers.
    pub fn new(id: usize, num_nodes: usize, peers: Vec<usize>) -> (node: Self)
        ensures
            node@ == (NodeView {
                id,
                clock: Seq::new(num_nodes as nat, |i: int| 0u64),
                peers: peers@,
            }),
    {
        Node { id, clock: VectorClock::new(num_nodes), peers }
    }

    /// The process id.
    pub fn id(&self) -> (r: usize)
        ensures
            r == self@.id,
    {
        self.id
    }

    /// The process's vector clock.
    pub fn clock(&self) -> (r: &VectorClock)
        ensures
            r@ == self@.clock,
    {
        &self.clock
    }

    /// The number of peers.
    pub fn num_peers(&self) -> (r: usize)
        ensures
            r == self@.peers.len(),
    {
        self.peers.len()
    }

    /// An internal event: rule R1 on the process's own component.
    pub fn handle_internal_event(&mut self)
        requires
            can_advance(old(self)@.clock, old(self)@.id),
        ensures
            final(self)@ == (NodeView { clock: advanced(old(self)@.clock, old(self)@.id), ..old(self)@ }),
    {
        self.clock.tick(self.id);
    }

    /// A send event to the peer at `index` of the peer list: rule R1, then
    /// the message is stamped with a copy of the new vector time.  Returns
    /// the peer's id and the stamp.
    pub fn send_to(&mut self, index: usize) -> (r: (usize, VectorClock))
        requires
            index < old(self)@.peers.len(),
            can_advance(old(self)@.clock, old(self)@.id),
        ensures
            final(self)@ == (NodeView { clock: advanced(old(self)@.clock, old(self)@.id), ..old(self)@ }),
            r.0 == old(self)@.peers[index as int],
            r.1@ == final(self)@.clock,
    {
        self.clock.tick(self.id);
        (self.peers[index], self.clock.clone())
    }

    /// A send event to a peer drawn at random.  With no peers nothing
    /// happens and `None` is returned; else as `send_to` for some index.
    pub fn handle_send_event(&mut self, rng: &mut ThreadRng) -> (r: Option<(usize, VectorClock)>)
        requires
            old(self)@.peers.len() > 0 ==> can_advance(old(self)@.clock, old(self)@.id),
        ensures
            old(self)@.peers.len() == 0 ==> r is None && final(self)@ == old(self)@,
            old(self)@.peers.len() > 0 ==> {
                &&& final(self)@ == (NodeView {
                    clock: advanced(old(self)@.clock, old(self)@.id),
                    ..old(self)@
                })
                &&& r matches Some((target, stamp)) && stamp@ == final(self)@.clock
                    && old(self)@.peers.contains(target)
            },
    {
        if self.peers.len() == 0 {
            return None;
        }
        let n = self.peers.len();
        let index = random_in(rng, 0, n as u64) as usize;
        let r = self.send_to(index);
        proof {
            assert(old(self)@.peers[index as int] == r.0);
        }
        Some(r)
    }

    /// A receive event for `msg`: first the causal relation of the message's
    /// stamp to the local vector time (`Less`: the send happened before the
    /// local state; `Greater`: after; `None`: concurrent), then rule R2.
    pub fn handle_receive_event(&mut self, msg: &Message) -> (relation: Option<Ordering>)
        requires
            can_receive(old(self)@.clock, msg@.timestamps, old(self)@.id),
        ensures
            relation == causal_order(msg@.timestamps, old(self)@.clock),
            final(self)@ == (NodeView {
                clock: received(old(self)@.clock, msg@.timestamps, old(self)@.id),
                ..old(self)@
            }),
    {
        let relation = msg.timestamps.partial_cmp(&self.clock);
        self.clock.update(&msg.timestamps, self.id);
        relation
    }

    /// The record of an event of this process at its current vector time,
    /// for the log.
    pub fn log_event(&self, description: String) -> (e: Event)
        requires
            can_record(self@.id, self@.clock),
        ensures
            e@ == event_of(self@.id, self@.clock, description@),
    {
        Event::new(self.id, &self.clock, description)
    }
}

} // verus!
