use vstd::prelude::*;

verus! {

broadcast use vstd::seq_lib::group_seq_properties;

/// Lamport's relation `=>` on total-order keys `(scalar time, process id)`:
/// the smaller time comes first, and on equal times the smaller process id
/// breaks the tie.
pub open spec fn key_lt(a: (u64, usize), b: (u64, usize)) -> bool {
    a.0 < b.0 || (a.0 == b.0 && a.1 < b.1)
}

/// `a` comes before `b` or is the same key.
pub open spec fn key_le(a: (u64, usize), b: (u64, usize)) -> bool {
    key_lt(a, b) || a == b
}

/// Compares two total-order keys.
pub fn key_less(a: (u64, usize), b: (u64, usize)) -> (r: bool)
    ensures
        r == key_lt(a, b),
{
    a.0 < b.0 || (a.0 == b.0 && a.1 < b.1)
}

/// A logged event that carries a total-order key.
pub trait TotalOrderKey {
    /// The key by which the log orders this event.
    spec fn order_key(&self) -> (u64, usize);

    /// Computes the key.
    fn sort_key(&self) -> (k: (u64, usize))
        ensures
            k == self.order_key(),
    ;
}

/// Every event of `s` comes no later, in key order, than every event after it.
pub open spec fn sorted_by_key<E: TotalOrderKey>(s: Seq<E>) -> bool {
    forall|i: int, j: int| 0 <= i < j < s.len() ==> key_le(s[i].order_key(), s[j].order_key())
}

/// The events of `s` whose key is `k`, in the order in which they stand in `s`.
pub open spec fn with_key<E: TotalOrderKey>(s: Seq<E>, k: (u64, usize)) -> Seq<E> {
    s.filter(has_key(k))
}

/// Holds of the events whose key is `k`.
pub open spec fn has_key<E: TotalOrderKey>(k: (u64, usize)) -> spec_fn(E) -> bool {
    |e: E| e.order_key() == k
}

/// Lamport's relation `=>` is a strict total order on keys: it is
/// irreflexive and transitive, and any two distinct keys are related one
/// way or the other.
pub proof fn lemma_key_order_total(a: (u64, usize), b: (u64, usize), c: (u64, usize))
    ensures
        !key_lt(a, a),
        key_lt(a, b) && key_lt(b, c) ==> key_lt(a, c),
        a != b ==> (key_lt(a, b) || key_lt(b, a)),
        !(key_lt(a, b) && key_lt(b, a)),
{
}

/// The clock condition carries over to the total order: an event whose
/// scalar time is smaller comes first, whatever the process ids.
pub proof fn lemma_smaller_time_first(a: (u64, usize), b: (u64, usize))
    requires
        a.0 < b.0,
    ensures
        key_lt(a, b),
        !key_lt(b, a),
{
}

/// On equal times the smaller process id comes first: the tie-breaker is
/// the fixed order of the processes.
pub proof fn lemma_ties_broken_by_process(a: (u64, usize), b: (u64, usize))
    requires
        a.0 == b.0,
        a.1 < b.1,
    ensures
        key_lt(a, b),
        !key_lt(b, a),
{
}

/// In a log sorted by key, an event whose key comes first in Lamport's
/// order stands earlier: with the clock condition, an event that happened
/// before another is printed before it.
pub proof fn lemma_sorted_log_respects_key_order<E: TotalOrderKey>(s: Seq<E>, i: int, j: int)
    requires
        sorted_by_key(s),
        0 <= i < s.len(),
        0 <= j < s.len(),
        key_lt(s[i].order_key(), s[j].order_key()),
    ensures
        i < j,
{
    if j <= i {
        if j < i {
            assert(key_le(s[j].order_key(), s[i].order_key()));
        }
    }
}

/// Inserting `e` at `p`, where no event before `p` has `e`'s key, puts `e`
/// first among the events with its key and moves no other key's events.
proof fn lemma_with_key_insert<E: TotalOrderKey>(s: Seq<E>, p: int, e: E, k: (u64, usize))
    requires
        0 <= p <= s.len(),
        forall|j: int| 0 <= j < p ==> s[j].order_key() != e.order_key(),
    ensures
        with_key(s.insert(p, e), k) == (if e.order_key() == k {
            seq![e] + with_key(s, k)
        } else {
            with_key(s, k)
        }),
{
    let pred = has_key::<E>(k);
    let a = s.subrange(0, p);
    let b = s.subrange(p, s.len() as int);
    assert(s == a + b);
    assert(s.insert(p, e) == a + (seq![e] + b));
    Seq::filter_distributes_over_add(a, b, pred);
    Seq::filter_distributes_over_add(a, seq![e] + b, pred);
    b.lemma_filter_prepend(e, pred);
    assert(s.filter(pred) == a.filter(pred) + b.filter(pred));
    assert(s.insert(p, e).filter(pred) == a.filter(pred) + (seq![e] + b).filter(pred));
    if e.order_key() == k {
        if a.filter(pred).len() > 0 {
            let x = a.filter(pred)[0];
            a.lemma_filter_pred(pred, 0);
            assert(a.filter(pred).contains(x));
            a.lemma_filter_contains_rev(pred, x);
            let j = choose|j: int| 0 <= j < a.len() && a[j] == x;
            assert(s[j] == x);
        }
        assert(a.filter(pred) == Seq::<E>::empty());
        assert((seq![e] + b).filter(pred) == seq![e] + b.filter(pred));
        assert(s.insert(p, e).filter(pred) == seq![e] + s.filter(pred));
    } else {
        assert((seq![e] + b).filter(pred) == b.filter(pred));
        assert(s.insert(p, e).filter(pred) == s.filter(pred));
    }
}

/// Inserting `e` anywhere adds one `e` to the multiset of events.
proof fn lemma_multiset_insert<E>(s: Seq<E>, p: int, e: E)
    requires
        0 <= p <= s.len(),
    ensures
        s.insert(p, e).to_multiset() == s.to_multiset().insert(e),
{
    broadcast use vstd::seq_lib::group_to_multiset_ensures;
    broadcast use vstd::multiset::group_multiset_axioms;

    let t = s.insert(p, e);
    assert(t.remove(p) == s);
    assert(t[p] == e);
    assert(t.to_multiset().remove(e) == s.to_multiset());
    assert(t.contains(e));
    assert(t.to_multiset().count(e) > 0);
    assert(t.to_multiset() =~= s.to_multiset().insert(e));
}

/// Sorts events into the log's total order: by key, and, among events with
/// the same key, in the order in which they were given (a stable sort).
///
/// For every key, the events with that key come out in the order in which
/// they came in; with the result sorted by key, this fixes the result.
pub fn sort_by_total_order<E: TotalOrderKey>(events: Vec<E>) -> (sorted: Vec<E>)
    ensures
        sorted_by_key(sorted@),
        forall|k: (u64, usize)| #[trigger] with_key(sorted@, k) == with_key(events@, k),
        sorted@.to_multiset() == events@.to_multiset(),
{
    let ghost orig = events@;
    let mut rest = events;
    let mut sorted: Vec<E> = Vec::new();
    while rest.len() > 0
        invariant
            rest.len() <= orig.len(),
            rest@ == orig.take(rest.len() as int),
            sorted_by_key(sorted@),
            forall|k: (u64, usize)| #[trigger]
                with_key(sorted@, k) == with_key(orig.skip(rest.len() as int), k),
            sorted@.to_multiset() == orig.skip(rest.len() as int).to_multiset(),
        decreases rest.len(),
    {
        let ghost n = rest.len() as int;
        let e = rest.pop().unwrap();
        let ek = e.sort_key();
        let mut p: usize = 0;
        while p < sorted.len() && key_less(sorted[p].sort_key(), ek)
            invariant
                p <= sorted.len(),
                ek == e.order_key(),
                forall|j: int| 0 <= j < p ==> key_lt(#[trigger] sorted@[j].order_key(), ek),
            decreases sorted.len() - p,
        {
            p = p + 1;
        }
        let ghost old_sorted = sorted@;
        proof {
            assert(e == orig[n - 1]);
            assert(orig.skip(n - 1) == seq![e] + orig.skip(n));
            assert(seq![e] + orig.skip(n) == orig.skip(n).insert(0, e));
            assert forall|j: int| 0 <= j < p implies old_sorted[j].order_key() != e.order_key() by {
                assert(key_lt(old_sorted[j].order_key(), ek));
            }
            assert forall|k: (u64, usize)| #[trigger]
                with_key(old_sorted.insert(p as int, e), k) == with_key(orig.skip(n - 1), k) by {
                lemma_with_key_insert(old_sorted, p as int, e, k);
                lemma_with_key_insert(orig.skip(n), 0, e, k);
            }
            lemma_multiset_insert(old_sorted, p as int, e);
            lemma_multiset_insert(orig.skip(n), 0, e);
            assert forall|j: int| p <= j < old_sorted.len() implies key_le(
                ek,
                #[trigger] old_sorted[j].order_key(),
            ) by {
                assert(!key_lt(old_sorted[p as int].order_key(), ek));
                assert(key_le(old_sorted[p as int].order_key(), old_sorted[j].order_key()));
            }
        }
        sorted.insert(p, e);
        proof {
            assert(rest@ == orig.take(n - 1));
            old_sorted.insert_ensures(p as int, e);
            assert forall|i: int, j: int| 0 <= i < j < sorted@.len() implies key_le(
                sorted@[i].order_key(),
                sorted@[j].order_key(),
            ) by {
                if j < p {
                } else if j == p {
                    assert(key_lt(old_sorted[i].order_key(), ek));
                } else if i < p {
                    assert(key_lt(old_sorted[i].order_key(), ek));
                    assert(key_le(ek, old_sorted[j - 1].order_key()));
                } else if i == p {
                    assert(key_le(ek, old_sorted[j - 1].order_key()));
                } else {
                    assert(key_le(old_sorted[i - 1].order_key(), old_sorted[j - 1].order_key()));
                }
            }
        }
    }
    proof {
        assert(orig.skip(0) == orig);
    }
    sorted
}

} // verus!
