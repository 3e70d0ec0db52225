use core::cmp::Ordering;
use vstd::prelude::*;
use vstd::std_specs::cmp::{PartialEqSpecImpl, PartialOrdSpecImpl};

use crate::order::key_lt;
use crate::vector_clock::{
    advanced, can_advance, can_receive, can_record, event_key, event_of, lemma_advanced,
    lemma_received, lemma_sum_nonnegative, received, sum, VectorClock,
};

verus! {

/// Some component, among those that both vector times have, is smaller in
/// `a` than in `b`.
pub open spec fn some_less(a: Seq<u64>, b: Seq<u64>) -> bool {
    exists|i: int| 0 <= i < a.len() && i < b.len() && #[trigger] a[i] < #[trigger] b[i]
}

/// The causal relation between two vector times, compared component by
/// component over the components that both have: `Less` when no component
/// of `a` is greater and some is smaller (`a` happened before `b`),
/// `Greater` in the mirror case, `Equal` when none differs, and `None` when
/// some are smaller and some greater (the events are concurrent).
pub open spec fn causal_order(a: Seq<u64>, b: Seq<u64>) -> Option<Ordering> {
    let less = some_less(a, b);
    let greater = some_less(b, a);
    if greater && less {
        None
    } else if greater {
        Some(Ordering::Greater)
    } else if less {
        Some(Ordering::Less)
    } else {
        Some(Ordering::Equal)
    }
}

/// Equality of vector clocks compares their whole time vectors.
impl PartialEq for VectorClock {
    fn eq(&self, other: &Self) -> (r: bool) {
        let a = self.read();
        let b = other.read();
        if a.len() != b.len() {
            return false;
        }
        let mut i: usize = 0;
        while i < a.len()
            invariant
                a@ == self@,
                b@ == other@,
                a@.len() == b@.len(),
                i <= a@.len(),
                forall|j: int| 0 <= j < i ==> a@[j] == b@[j],
            decreases a@.len() - i,
        {
            if a[i] != b[i] {
                return false;
            }
            i = i + 1;
        }
        proof {
            assert(self@ =~= other@);
        }
        true
    }
}

impl PartialEqSpecImpl for VectorClock {
    open spec fn obeys_eq_spec() -> bool {
        true
    }

    open spec fn eq_spec(&self, other: &VectorClock) -> bool {
        self@ == other@
    }
}

/// Vector clocks are ordered by the causal (component-wise) order.
impl PartialOrd for VectorClock {
    fn partial_cmp(&self, other: &Self) -> (r: Option<Ordering>) {
        let a = self.read();
        let b = other.read();
        let n = if a.len() < b.len() {
            a.len()
        } else {
            b.len()
        };
        let mut less = false;
        let mut greater = false;
        let mut i: usize = 0;
        while i < n
            invariant
                a@ == self@,
                b@ == other@,
                n <= a@.len(),
                n <= b@.len(),
                n == a@.len() || n == b@.len(),
                i <= n,
                less == exists|j: int| 0 <= j < i && #[trigger] a@[j] < #[trigger] b@[j],
                greater == exists|j: int| 0 <= j < i && #[trigger] b@[j] < #[trigger] a@[j],
            decreases n - i,
        {
            let x = a[i];
            let y = b[i];
            if x < y {
                less = true;
            } else if x > y {
                greater = true;
            }
            i = i + 1;
        }
        proof {
            assert(less == some_less(self@, other@));
            assert(greater == some_less(other@, self@));
        }
        if greater && less {
            None
        } else if greater {
            Some(Ordering::Greater)
        } else if less {
            Some(Ordering::Less)
        } else {
            Some(Ordering::Equal)
        }
    }
}

impl PartialOrdSpecImpl for VectorClock {
    open spec fn obeys_partial_cmp_spec() -> bool {
        true
    }

    open spec fn partial_cmp_spec(&self, other: &VectorClock) -> Option<Ordering> {
        causal_order(self@, other@)
    }
}

/// The converse of a causal relation: `Less` and `Greater` swap.
pub open spec fn converse(o: Option<Ordering>) -> Option<Ordering> {
    match o {
        Some(Ordering::Less) => Some(Ordering::Greater),
        Some(Ordering::Greater) => Some(Ordering::Less),
        _ => o,
    }
}

/// Every vector time is `Equal` to itself.
pub proof fn lemma_causal_order_reflexive(a: Seq<u64>)
    ensures
        causal_order(a, a) == Some(Ordering::Equal),
{
}

/// Comparing the other way round gives the converse relation: `a`
/// happened before `b` exactly when `b` happened after `a`, and
/// concurrency is symmetric.
pub proof fn lemma_causal_order_converse(a: Seq<u64>, b: Seq<u64>)
    ensures
        causal_order(b, a) == converse(causal_order(a, b)),
{
}

/// For vector times of the same length, `Equal` means identical.
pub proof fn lemma_equal_iff_identical(a: Seq<u64>, b: Seq<u64>)
    requires
        a.len() == b.len(),
    ensures
        causal_order(a, b) == Some(Ordering::Equal) <==> a == b,
{
    if causal_order(a, b) == Some(Ordering::Equal) {
        assert forall|i: int| 0 <= i < a.len() implies a[i] == b[i] by {
            if a[i] < b[i] {
                assert(some_less(a, b));
            }
            if b[i] < a[i] {
                assert(some_less(b, a));
            }
        }
        assert(a =~= b);
    }
}

/// `Less` means: no component greater, some component smaller.
proof fn lemma_less_pointwise(a: Seq<u64>, b: Seq<u64>)
    requires
        a.len() == b.len(),
    ensures
        causal_order(a, b) == Some(Ordering::Less) <==> (forall|i: int|
            0 <= i < a.len() ==> a[i] <= b[i]) && some_less(a, b),
{
    if causal_order(a, b) == Some(Ordering::Less) {
        assert forall|i: int| 0 <= i < a.len() implies a[i] <= b[i] by {
            if b[i] < a[i] {
                assert(some_less(b, a));
            }
        }
    }
    if (forall|i: int| 0 <= i < a.len() ==> a[i] <= b[i]) && some_less(a, b) {
        if some_less(b, a) {
            let i = choose|i: int| 0 <= i < b.len() && i < a.len() && #[trigger] b[i] < #[trigger] a[i];
            assert(a[i] <= b[i]);
        }
    }
}

/// For vector times of one length: `Less` exactly when no component is
/// greater and some component is smaller; `Greater` in the mirror case;
/// `Equal` exactly when all components agree; `None` exactly when one
/// component is smaller and another greater.
pub proof fn lemma_causal_order_cases(a: Seq<u64>, b: Seq<u64>)
    requires
        a.len() == b.len(),
    ensures
        causal_order(a, b) == Some(Ordering::Less) <==> (forall|i: int|
            0 <= i < a.len() ==> a[i] <= b[i]) && (exists|i: int| 0 <= i < a.len() && a[i] < b[i]),
        causal_order(a, b) == Some(Ordering::Greater) <==> (forall|i: int|
            0 <= i < a.len() ==> b[i] <= a[i]) && (exists|i: int| 0 <= i < a.len() && b[i] < a[i]),
        causal_order(a, b) == Some(Ordering::Equal) <==> (forall|i: int|
            0 <= i < a.len() ==> a[i] == b[i]),
        causal_order(a, b) is None <==> (exists|i: int| 0 <= i < a.len() && a[i] < b[i]) && (exists|
            j: int,
        | 0 <= j < a.len() && b[j] < a[j]),
{
    lemma_less_pointwise(a, b);
    lemma_less_pointwise(b, a);
    lemma_causal_order_converse(a, b);
    lemma_equal_iff_identical(a, b);
    if (exists|i: int| 0 <= i < a.len() && a[i] < b[i]) {
        let i = choose|i: int| 0 <= i < a.len() && a[i] < b[i];
        assert(some_less(a, b));
    }
    if (exists|i: int| 0 <= i < a.len() && b[i] < a[i]) {
        let i = choose|i: int| 0 <= i < a.len() && b[i] < a[i];
        assert(some_less(b, a));
    }
    if (forall|i: int| 0 <= i < a.len() ==> a[i] == b[i]) {
        assert(a =~= b);
    }
}

/// Happened-before is transitive on vector times of one length.
pub proof fn lemma_causal_order_transitive(a: Seq<u64>, b: Seq<u64>, c: Seq<u64>)
    requires
        a.len() == b.len(),
        b.len() == c.len(),
        causal_order(a, b) == Some(Ordering::Less),
        causal_order(b, c) == Some(Ordering::Less),
    ensures
        causal_order(a, c) == Some(Ordering::Less),
{
    lemma_less_pointwise(a, b);
    lemma_less_pointwise(b, c);
    lemma_less_pointwise(a, c);
    let i = choose|i: int| 0 <= i < a.len() && i < b.len() && #[trigger] a[i] < #[trigger] b[i];
    assert(b[i] <= c[i]);
    assert(a[i] < c[i]);
}

/// A vector time no greater in any component sums to no more, and to less
/// if some component is smaller.
proof fn lemma_sum_pointwise(a: Seq<u64>, b: Seq<u64>)
    requires
        a.len() == b.len(),
        forall|i: int| 0 <= i < a.len() ==> a[i] <= b[i],
    ensures
        sum(a) <= sum(b),
        some_less(a, b) ==> sum(a) < sum(b),
    decreases a.len(),
{
    if a.len() > 0 {
        let n = a.len() - 1;
        assert forall|i: int| 0 <= i < n implies a.drop_last()[i] <= b.drop_last()[i] by {
            assert(a.drop_last()[i] == a[i]);
            assert(b.drop_last()[i] == b[i]);
        }
        lemma_sum_pointwise(a.drop_last(), b.drop_last());
        if some_less(a, b) {
            let i = choose|i: int| 0 <= i < a.len() && i < b.len() && #[trigger] a[i] < #[trigger] b[i];
            if i < n {
                assert(a.drop_last()[i] < b.drop_last()[i]);
                assert(some_less(a.drop_last(), b.drop_last()));
            }
        }
    }
}

/// If `a` happened before `b`, the components of `a` sum to less than those
/// of `b`: the clock sum satisfies the clock condition.
pub proof fn lemma_happened_before_smaller_sum(a: Seq<u64>, b: Seq<u64>)
    requires
        a.len() == b.len(),
        causal_order(a, b) == Some(Ordering::Less),
    ensures
        sum(a) < sum(b),
{
    lemma_less_pointwise(a, b);
    lemma_sum_pointwise(a, b);
}

/// Rule R1: the new vector time happened after the old one.
pub proof fn lemma_tick_happens_after(s: Seq<u64>, process_id: usize)
    requires
        can_advance(s, process_id),
    ensures
        causal_order(s, advanced(s, process_id)) == Some(Ordering::Less),
{
    lemma_advanced(s, process_id);
    let t = advanced(s, process_id);
    let i = choose|i: int| 0 <= i < s.len() && s[i] < #[trigger] t[i];
    assert(some_less(s, t));
    lemma_less_pointwise(s, t);
}

/// Rule R2: the new vector time happened after both the old local time and
/// the time stamped on the received message, and its components sum to
/// more than either's.
pub proof fn lemma_receive_happens_after(own: Seq<u64>, other: Seq<u64>, process_id: usize)
    requires
        can_receive(own, other, process_id),
    ensures
        causal_order(own, received(own, other, process_id)) == Some(Ordering::Less),
        causal_order(other, received(own, other, process_id)) == Some(Ordering::Less),
        sum(received(own, other, process_id)) > sum(own),
        sum(received(own, other, process_id)) > sum(other),
{
    lemma_received(own, other, process_id);
    let r = received(own, other, process_id);
    let i = choose|i: int| 0 <= i < own.len() && own[i] < #[trigger] r[i] && other[i] < r[i];
    assert(some_less(own, r));
    assert(some_less(other, r));
    lemma_less_pointwise(own, r);
    lemma_less_pointwise(other, r);
    lemma_happened_before_smaller_sum(own, r);
    lemma_happened_before_smaller_sum(other, r);
}

/// Sorting the log on `(clock sum, process id)` extends happened-before: an
/// event whose vector time happened before another's comes first.
pub proof fn lemma_sum_order_extends_happened_before(
    pa: usize,
    a: Seq<u64>,
    da: Seq<char>,
    pb: usize,
    b: Seq<u64>,
    db: Seq<char>,
)
    requires
        can_record(pa, a),
        can_record(pb, b),
        a.len() == b.len(),
        causal_order(a, b) == Some(Ordering::Less),
    ensures
        key_lt(event_key(event_of(pa, a, da)), event_key(event_of(pb, b, db))),
{
    lemma_happened_before_smaller_sum(a, b);
    lemma_sum_nonnegative(a);
}

} // verus!
