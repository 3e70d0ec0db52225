use vstd::prelude::*;

use crate::vector_clock::{advanced, can_advance, lemma_advanced, lemma_received, received};

verus! {

/// A whole system of processes that keep vector clocks: the vector time of
/// each process, and the stamps of the messages sent and not yet received.
pub struct SystemState {
    pub clocks: Seq<Seq<u64>>,
    pub in_flight: Seq<Seq<u64>>,
}

/// Every process and every stamp has one component per process.
pub open spec fn well_formed(s: SystemState) -> bool {
    &&& forall|j: int| 0 <= j < s.clocks.len() ==> #[trigger] s.clocks[j].len() == s.clocks.len()
    &&& forall|m: int| 0 <= m < s.in_flight.len() ==> #[trigger] s.in_flight[m].len() == s.clocks.len()
}

/// No process, and no message in flight, knows of more events of process
/// `i` than `i` itself has had: `VC_j[i] <= VC_i[i]`.
pub open spec fn knowledge_bounded(s: SystemState) -> bool {
    &&& forall|j: int, i: int|
        0 <= j < s.clocks.len() && 0 <= i < s.clocks.len() ==> #[trigger] s.clocks[j][i]
            <= s.clocks[i][i]
    &&& forall|m: int, i: int|
        0 <= m < s.in_flight.len() && 0 <= i < s.clocks.len() ==> #[trigger] s.in_flight[m][i]
            <= s.clocks[i][i]
}

/// The start of a run of `n` processes: all times zero, nothing sent.
pub open spec fn initial(n: nat) -> SystemState {
    SystemState { clocks: Seq::new(n, |j: int| Seq::new(n, |i: int| 0u64)), in_flight: seq![] }
}

/// Process `p` can execute rule R1 without overflow.
pub open spec fn can_step(s: SystemState, p: usize) -> bool {
    p < s.clocks.len() && can_advance(s.clocks[p as int], p)
}

/// An internal event at `p` (rule R1).
pub open spec fn internal_step(s: SystemState, p: usize) -> SystemState {
    SystemState { clocks: s.clocks.update(p as int, advanced(s.clocks[p as int], p)), ..s }
}

/// A send event at `p`: rule R1, and the new time goes out as a stamp.
pub open spec fn send_step(s: SystemState, p: usize) -> SystemState {
    SystemState {
        clocks: s.clocks.update(p as int, advanced(s.clocks[p as int], p)),
        in_flight: s.in_flight.push(advanced(s.clocks[p as int], p)),
    }
}

/// Process `p` receives the message in flight at `m` (rule R2).
pub open spec fn receive_step(s: SystemState, p: usize, m: int) -> SystemState {
    SystemState {
        clocks: s.clocks.update(p as int, received(s.clocks[p as int], s.in_flight[m], p)),
        in_flight: s.in_flight.remove(m),
    }
}

/// A run starts in a state where no one knows more of any process than it
/// knows itself.
pub proof fn lemma_initial_knowledge_bounded(n: nat)
    ensures
        well_formed(initial(n)),
        knowledge_bounded(initial(n)),
{
}

/// An internal event keeps every process's knowledge of `i` within `i`'s
/// own count, and raises `p`'s own component by exactly one.
pub proof fn lemma_internal_step(s: SystemState, p: usize)
    requires
        well_formed(s),
        knowledge_bounded(s),
        can_step(s, p),
    ensures
        well_formed(internal_step(s, p)),
        knowledge_bounded(internal_step(s, p)),
        internal_step(s, p).clocks[p as int][p as int] == s.clocks[p as int][p as int] + 1,
{
    let own = s.clocks[p as int];
    lemma_advanced(own, p);
    let t = internal_step(s, p);
    assert forall|j: int| 0 <= j < t.clocks.len() implies #[trigger] t.clocks[j].len()
        == t.clocks.len() by {}
    assert forall|j: int, i: int|
        0 <= j < t.clocks.len() && 0 <= i < t.clocks.len() implies #[trigger] t.clocks[j][i]
        <= t.clocks[i][i] by {
        assert(s.clocks[j][i] <= s.clocks[i][i]);
        if i == p {
            assert(t.clocks[i][i] == own[i] + 1);
        } else {
            assert(t.clocks[i] == s.clocks[i]);
            if j == p {
                assert(t.clocks[j][i] == own[i]);
            }
        }
    }
    assert forall|m: int, i: int|
        0 <= m < t.in_flight.len() && 0 <= i < t.clocks.len() implies #[trigger] t.in_flight[m][i]
        <= t.clocks[i][i] by {
        assert(s.in_flight[m][i] <= s.clocks[i][i]);
        if i != p {
            assert(t.clocks[i] == s.clocks[i]);
        }
    }
}

/// A send event keeps knowledge bounded, the stamp sent included, and
/// raises `p`'s own component by exactly one.
pub proof fn lemma_send_step(s: SystemState, p: usize)
    requires
        well_formed(s),
        knowledge_bounded(s),
        can_step(s, p),
    ensures
        well_formed(send_step(s, p)),
        knowledge_bounded(send_step(s, p)),
        send_step(s, p).clocks[p as int][p as int] == s.clocks[p as int][p as int] + 1,
{
    let own = s.clocks[p as int];
    lemma_advanced(own, p);
    lemma_internal_step(s, p);
    let t = send_step(s, p);
    assert(t.clocks == internal_step(s, p).clocks);
    assert forall|m: int| 0 <= m < t.in_flight.len() implies #[trigger] t.in_flight[m].len()
        == t.clocks.len() by {
        if m < s.in_flight.len() {
            assert(t.in_flight[m] == s.in_flight[m]);
        }
    }
    assert forall|j: int, i: int|
        0 <= j < t.clocks.len() && 0 <= i < t.clocks.len() implies #[trigger] t.clocks[j][i]
        <= t.clocks[i][i] by {
        assert(t.clocks[j][i] == internal_step(s, p).clocks[j][i]);
        assert(t.clocks[i][i] == internal_step(s, p).clocks[i][i]);
    }
    assert forall|m: int, i: int|
        0 <= m < t.in_flight.len() && 0 <= i < t.clocks.len() implies #[trigger] t.in_flight[m][i]
        <= t.clocks[i][i] by {
        assert(t.clocks[i][i] == internal_step(s, p).clocks[i][i]);
        if m < s.in_flight.len() {
            assert(t.in_flight[m] == s.in_flight[m]);
            assert(internal_step(s, p).in_flight[m][i] <= internal_step(s, p).clocks[i][i]);
        } else {
            assert(t.in_flight[m] == advanced(own, p));
            assert(t.clocks[p as int] == advanced(own, p));
            assert(t.clocks[p as int][i] <= t.clocks[i][i]);
        }
    }
}

/// Receiving a message keeps knowledge bounded, and raises the receiver's
/// own component by exactly one: in every run, `VC_p[p]` counts the events
/// of `p`, and `VC_j[i] = k` means that `j` knows of `k` events of `i`, no
/// more than have happened.
pub proof fn lemma_receive_step(s: SystemState, p: usize, m: int)
    requires
        well_formed(s),
        knowledge_bounded(s),
        can_step(s, p),
        0 <= m < s.in_flight.len(),
    ensures
        well_formed(receive_step(s, p, m)),
        knowledge_bounded(receive_step(s, p, m)),
        receive_step(s, p, m).clocks[p as int][p as int] == s.clocks[p as int][p as int] + 1,
{
    let own = s.clocks[p as int];
    let stamp = s.in_flight[m];
    assert(stamp[p as int] <= own[p as int]);
    lemma_received(own, stamp, p);
    let r = received(own, stamp, p);
    let t = receive_step(s, p, m);
    s.in_flight.remove_ensures(m);
    assert forall|j: int| 0 <= j < t.clocks.len() implies #[trigger] t.clocks[j].len()
        == t.clocks.len() by {}
    assert forall|k: int| 0 <= k < t.in_flight.len() implies #[trigger] t.in_flight[k].len()
        == t.clocks.len() by {
        if k < m {
            assert(t.in_flight[k] == s.in_flight[k]);
        } else {
            assert(t.in_flight[k] == s.in_flight[k + 1]);
        }
    }
    assert forall|i: int| 0 <= i < t.clocks.len() && i != p implies r[i] <= #[trigger] t.clocks[i][i] by {
        assert(t.clocks[i] == s.clocks[i]);
        assert(own[i] <= s.clocks[i][i]);
        assert(stamp[i] <= s.clocks[i][i]);
        assert(r[i] == if own[i] >= stamp[i] { own[i] } else { stamp[i] });
    }
    assert forall|j: int, i: int|
        0 <= j < t.clocks.len() && 0 <= i < t.clocks.len() implies #[trigger] t.clocks[j][i]
        <= t.clocks[i][i] by {
        assert(s.clocks[j][i] <= s.clocks[i][i]);
        if i == p {
            assert(t.clocks[i][i] == own[i] + 1);
        } else {
            assert(t.clocks[i] == s.clocks[i]);
            if j == p {
                assert(r[i] <= t.clocks[i][i]);
            }
        }
    }
    assert forall|k: int, i: int|
        0 <= k < t.in_flight.len() && 0 <= i < t.clocks.len() implies #[trigger] t.in_flight[k][i]
        <= t.clocks[i][i] by {
        let k2 = if k < m { k } else { k + 1 };
        assert(t.in_flight[k] == s.in_flight[k2]);
        assert(s.in_flight[k2][i] <= s.clocks[i][i]);
        if i == p {
            assert(t.clocks[i][i] == own[i] + 1);
        } else {
            assert(t.clocks[i] == s.clocks[i]);
        }
    }
}

} // verus!
