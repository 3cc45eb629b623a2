//! The rule by which tracked threads are put in order, the most recently
//! active first, and what holds of it.
//!
//! Two neighbours change places when the first was sent earlier than the
//! second, or when its thread was last replied to earlier. The two tests may
//! disagree, and then the pair changes places whenever it is looked at. What
//! is proved of the outcome beyond its definition is therefore proved for
//! slots whose two times agree.

use vstd::prelude::*;
use crate::messages::Message;

verus! {

pub type Slots = Seq<Option<Message>>;

/// Two neighbours, `first` before `second`, have to change places. An empty
/// slot never moves.
pub open spec fn out_of_order(first: Option<Message>, second: Option<Message>) -> bool {
    match (first, second) {
        (Some(a), Some(b)) => a.received_at < b.received_at || a.reply_latest() < b.reply_latest(),
        _ => false,
    }
}

/// The slots with those at `j` and `j + 1` exchanged.
pub open spec fn exchanged(s: Slots, j: int) -> Slots {
    s.update(j, s[j + 1]).update(j + 1, s[j])
}

/// One comparison: the neighbours at `j` and `j + 1` change places if they
/// have to.
pub open spec fn step(s: Slots, j: int) -> Slots {
    if 0 <= j && j + 1 < s.len() && out_of_order(s[j], s[j + 1]) {
        exchanged(s, j)
    } else {
        s
    }
}

/// One sweep from the front: the comparisons at 0, 1, up to `upto - 1`.
pub open spec fn sweep(s: Slots, upto: int) -> Slots
    decreases upto,
{
    if upto <= 0 {
        s
    } else {
        step(sweep(s, upto - 1), upto - 1)
    }
}

/// The first `count` sweeps. Each one stops one comparison earlier than the
/// one before it; the first makes all `len - 1` of them.
pub open spec fn sweeps(s: Slots, count: int) -> Slots
    decreases count,
{
    if count <= 0 {
        s
    } else {
        sweep(sweeps(s, count - 1), s.len() - count)
    }
}

/// The slots after reordering: as many sweeps as there are slots.
pub open spec fn reordered(s: Slots) -> Slots {
    sweeps(s, s.len() as int)
}

/// No two neighbours have to change places.
pub open spec fn settled(s: Slots) -> bool {
    forall|j: int| 0 <= j && j + 1 < s.len() ==> !out_of_order(#[trigger] s[j], s[j + 1])
}

/// No slot from `a` to `b` is empty.
pub open spec fn joined(s: Slots, a: int, b: int) -> bool {
    0 <= a <= b < s.len() && forall|k: int| a <= k <= b ==> (#[trigger] s[k]) is Some
}

/// The two times agree: of two messages with no empty slot between them,
/// none precedes the other by one time and follows it by the other.
pub open spec fn agreeing(s: Slots) -> bool {
    forall|a: int, b: int|
        #[trigger] joined(s, a, b) ==> !(out_of_order(s[a], s[b]) && out_of_order(s[b], s[a]))
}

/// Of messages with no empty slot between them, none has to move before an
/// earlier one, neighbours or not.
pub open spec fn ordered(s: Slots) -> bool {
    forall|a: int, b: int| #[trigger] joined(s, a, b) ==> !out_of_order(s[a], s[b])
}

/// The message at `p` has to move before none of those that reach it without
/// an empty slot.
spec fn sunk(s: Slots, p: int) -> bool {
    forall|a: int| #[trigger] joined(s, a, p) ==> !out_of_order(s[a], s[p])
}

/// Every slot from `from` on is sunk.
spec fn sunk_from(s: Slots, from: int) -> bool {
    forall|p: int| from <= p < s.len() ==> #[trigger] sunk(s, p)
}

/// The same slots are empty in both.
pub open spec fn same_gaps(s: Slots, t: Slots) -> bool {
    s.len() == t.len() && forall|k: int| 0 <= k < s.len() ==> ((#[trigger] s[k]) is None <==> t[k] is None)
}

/// A comparison moves nothing but the two neighbours, and those only among
/// occupied slots.
proof fn lemma_step_shape(s: Slots, j: int)
    ensures
        step(s, j).len() == s.len(),
        same_gaps(s, step(s, j)),
        step(s, j).to_multiset() == s.to_multiset(),
        forall|k: int| 0 <= k < s.len() && k != j && k != j + 1 ==> step(s, j)[k] == s[k],
        forall|a: int, b: int| joined(step(s, j), a, b) <==> joined(s, a, b),
{
    let t = step(s, j);
    if t != s {
        broadcast use vstd::multiset::group_multiset_axioms;

        let mid = s.update(j, s[j + 1]);
        vstd::seq_lib::to_multiset_update(s, j, s[j + 1]);
        vstd::seq_lib::to_multiset_update(mid, j + 1, s[j]);
        vstd::seq_lib::to_multiset_contains(s, s[j]);
        vstd::seq_lib::to_multiset_contains(s, s[j + 1]);
        assert(s.contains(s[j]));
        assert(s.contains(s[j + 1]));
        assert(mid[j + 1] == s[j + 1]);
        assert(t.to_multiset() =~= s.to_multiset());
    }
    assert forall|a: int, b: int| joined(t, a, b) <==> joined(s, a, b) by {
        if joined(t, a, b) {
            assert forall|k: int| a <= k <= b implies (#[trigger] s[k]) is Some by {
                assert(t[k] is Some);
            }
        }
        if joined(s, a, b) {
            assert forall|k: int| a <= k <= b implies (#[trigger] t[k]) is Some by {
                assert(s[k] is Some);
            }
        }
    }
}

/// A comparison leaves the times in agreement.
proof fn lemma_step_keeps_agreeing(s: Slots, j: int)
    requires
        agreeing(s),
    ensures
        agreeing(step(s, j)),
{
    let t = step(s, j);
    lemma_step_shape(s, j);
    if t != s {
        assert(s[j] is Some && s[j + 1] is Some);
        assert forall|a: int, b: int| #[trigger] joined(t, a, b) implies !(out_of_order(t[a], t[b])
            && out_of_order(t[b], t[a])) by {
            assert(joined(s, a, b));
            let a0 = if a == j { j + 1 } else if a == j + 1 { j } else { a };
            let b0 = if b == j { j + 1 } else if b == j + 1 { j } else { b };
            assert(t[a] == s[a0] && t[b] == s[b0]);
            let lo = if a0 <= b0 { a0 } else { b0 };
            let hi = if a0 <= b0 { b0 } else { a0 };
            assert(joined(s, lo, hi)) by {
                assert forall|k: int| lo <= k <= hi implies (#[trigger] s[k]) is Some by {
                    if a <= k <= b {
                        assert(s[k] is Some);
                    }
                }
            }
            assert(!(out_of_order(s[lo], s[hi]) && out_of_order(s[hi], s[lo])));
        }
    }
}

/// A comparison before a sunk slot leaves it sunk.
proof fn lemma_step_keeps_sunk(s: Slots, j: int, p: int)
    requires
        sunk(s, p),
        j + 1 < p,
    ensures
        sunk(step(s, j), p),
{
    let t = step(s, j);
    lemma_step_shape(s, j);
    if t != s {
        assert forall|a: int| #[trigger] joined(t, a, p) implies !out_of_order(t[a], t[p]) by {
            assert(joined(s, a, p));
            let a0 = if a == j { j + 1 } else if a == j + 1 { j } else { a };
            assert(t[a] == s[a0]);
            assert(joined(s, a0, p)) by {
                assert forall|k: int| a0 <= k <= p implies (#[trigger] s[k]) is Some by {
                    if a <= k {
                        assert(s[k] is Some);
                    }
                }
            }
            assert(!out_of_order(s[a0], s[p]));
        }
    }
}

/// A comparison behind a sunk slot sinks the next one.
proof fn lemma_step_sinks(s: Slots, j: int)
    requires
        agreeing(s),
        sunk(s, j),
        0 <= j,
        j + 1 < s.len(),
    ensures
        sunk(step(s, j), j + 1),
{
    let t = step(s, j);
    lemma_step_shape(s, j);
    assert forall|a: int| #[trigger] joined(t, a, j + 1) implies !out_of_order(t[a], t[j + 1]) by {
        assert(joined(s, a, j + 1));
        assert(s[j + 1] is Some);
        if a <= j {
            assert(s[j] is Some);
            assert(joined(s, a, j)) by {
                assert forall|k: int| a <= k <= j implies (#[trigger] s[k]) is Some by {
                    assert(s[k] is Some);
                }
            }
            assert(!out_of_order(s[a], s[j]));
            assert(joined(s, j, j + 1)) by {
                assert forall|k: int| j <= k <= j + 1 implies (#[trigger] s[k]) is Some by {
                    assert(s[k] is Some);
                }
            }
            assert(!(out_of_order(s[j], s[j + 1]) && out_of_order(s[j + 1], s[j])));
            assert(s[a] is Some);
        }
    }
}

/// What one sweep keeps and what it gains: the slot it stops at is sunk.
proof fn lemma_sweep(s: Slots, upto: int, bound: int)
    requires
        agreeing(s),
        sunk_from(s, bound),
        0 <= upto < bound,
        upto < s.len(),
    ensures
        agreeing(sweep(s, upto)),
        sunk_from(sweep(s, upto), bound),
        sunk(sweep(s, upto), upto),
    decreases upto,
{
    let t = sweep(s, upto);
    if upto == 0 {
        assert(sunk(s, 0)) by {
            assert forall|a: int| #[trigger] joined(s, a, 0) implies !out_of_order(s[a], s[0]) by {
                assert(s[0] is Some);
            }
        }
    } else {
        let before = sweep(s, upto - 1);
        lemma_sweep(s, upto - 1, bound);
        lemma_sweep_shape(s, upto - 1);
        lemma_step_shape(before, upto - 1);
        lemma_step_keeps_agreeing(before, upto - 1);
        lemma_step_sinks(before, upto - 1);
        assert forall|p: int| bound <= p < t.len() implies #[trigger] sunk(t, p) by {
            assert(sunk(before, p));
            lemma_step_keeps_sunk(before, upto - 1, p);
        }
    }
}

/// A sweep moves messages among the occupied slots and loses none.
proof fn lemma_sweep_shape(s: Slots, upto: int)
    ensures
        sweep(s, upto).len() == s.len(),
        same_gaps(s, sweep(s, upto)),
        sweep(s, upto).to_multiset() == s.to_multiset(),
        forall|k: int| upto < k < s.len() ==> sweep(s, upto)[k] == s[k],
    decreases upto,
{
    if upto > 0 {
        lemma_sweep_shape(s, upto - 1);
        lemma_step_shape(sweep(s, upto - 1), upto - 1);
    }
}

/// Sweeps move messages among the occupied slots and lose none.
proof fn lemma_sweeps_shape(s: Slots, count: int)
    ensures
        sweeps(s, count).len() == s.len(),
        same_gaps(s, sweeps(s, count)),
        sweeps(s, count).to_multiset() == s.to_multiset(),
    decreases count,
{
    if count > 0 {
        lemma_sweeps_shape(s, count - 1);
        lemma_sweep_shape(sweeps(s, count - 1), s.len() - count);
    }
}

/// After `count` sweeps the last `count` slots are sunk.
proof fn lemma_sweeps(s: Slots, count: int)
    requires
        agreeing(s),
        0 <= count <= s.len(),
    ensures
        agreeing(sweeps(s, count)),
        sunk_from(sweeps(s, count), s.len() - count),
    decreases count,
{
    if count > 0 {
        let before = sweeps(s, count - 1);
        let bound = s.len() - count + 1;
        lemma_sweeps(s, count - 1);
        lemma_sweeps_shape(s, count - 1);
        lemma_sweep(before, bound - 1, bound);
        let t = sweeps(s, count);
        lemma_sweep_shape(before, bound - 1);
        assert forall|p: int| s.len() - count <= p < t.len() implies #[trigger] sunk(t, p) by {
            if p >= bound {
                assert(sunk(t, p));
            }
        }
    }
}

/// Reordering keeps the number of slots, leaves every empty slot where it
/// was, and holds the same messages afterwards, each as often as before.
pub proof fn lemma_reorder_keeps_contents(s: Slots)
    ensures
        reordered(s).len() == s.len(),
        same_gaps(s, reordered(s)),
        reordered(s).to_multiset() == s.to_multiset(),
{
    lemma_sweeps_shape(s, s.len() as int);
}

/// Whatever stands in a slot after reordering stood in some slot before.
pub proof fn lemma_reorder_moves_only(s: Slots, k: int)
    requires
        0 <= k < s.len(),
    ensures
        s.contains(reordered(s)[k]),
{
    let t = reordered(s);
    lemma_reorder_keeps_contents(s);
    vstd::seq_lib::to_multiset_contains(t, t[k]);
    vstd::seq_lib::to_multiset_contains(s, t[k]);
    assert(t.contains(t[k]));
}

/// Where the two times agree, reordering leaves every stretch of occupied
/// slots in order: no message has to move before an earlier one.
pub proof fn lemma_reorder_orders(s: Slots)
    requires
        agreeing(s),
    ensures
        ordered(reordered(s)),
        settled(reordered(s)),
{
    let t = reordered(s);
    lemma_sweeps(s, s.len() as int);
    lemma_sweeps_shape(s, s.len() as int);
    assert forall|a: int, b: int| #[trigger] joined(t, a, b) implies !out_of_order(t[a], t[b]) by {
        assert(sunk(t, b));
    }
    lemma_ordered_is_settled(t);
}

/// In ordered slots no two neighbours have to change places.
pub proof fn lemma_ordered_is_settled(s: Slots)
    requires
        ordered(s),
    ensures
        settled(s),
{
    assert forall|j: int| 0 <= j && j + 1 < s.len() implies !out_of_order(
        #[trigger] s[j],
        s[j + 1],
    ) by {
        if s[j] is Some && s[j + 1] is Some {
            assert(joined(s, j, j + 1)) by {
                assert forall|k: int| j <= k <= j + 1 implies (#[trigger] s[k]) is Some by {
                    if k == j {
                    } else {
                        assert(k == j + 1);
                    }
                }
            }
            assert(!out_of_order(s[j], s[j + 1]));
        }
    }
}

/// A sweep changes nothing in settled slots.
proof fn lemma_sweep_settled(s: Slots, upto: int)
    requires
        settled(s),
    ensures
        sweep(s, upto) == s,
    decreases upto,
{
    if upto > 0 {
        lemma_sweep_settled(s, upto - 1);
    }
}

/// Sweeps change nothing in settled slots.
proof fn lemma_sweeps_settled(s: Slots, count: int)
    requires
        settled(s),
    ensures
        sweeps(s, count) == s,
    decreases count,
{
    if count > 0 {
        lemma_sweeps_settled(s, count - 1);
        lemma_sweep_settled(s, s.len() - count);
    }
}

/// Slots in which no two neighbours have to change places are left as they
/// are.
pub proof fn lemma_settled_stays(s: Slots)
    requires
        settled(s),
    ensures
        reordered(s) == s,
{
    lemma_sweeps_settled(s, s.len() as int);
}

/// Reordering twice gives what reordering once gives, where the two times
/// agree.
pub proof fn lemma_reorder_idempotent(s: Slots)
    requires
        agreeing(s),
    ensures
        reordered(reordered(s)) == reordered(s),
{
    lemma_reorder_orders(s);
    lemma_settled_stays(reordered(s));
}

/// Whether the neighbours `first`, `second` have to change places.
pub fn must_exchange(first: &Option<Message>, second: &Option<Message>) -> (yes: bool)
    ensures
        yes == out_of_order(*first, *second),
{
    match (first, second) {
        (Some(a), Some(b)) => {
            let reply_a = match &a.reply {
                Some(r) => r.latest_reply,
                None => 0,
            };
            let reply_b = match &b.reply {
                Some(r) => r.latest_reply,
                None => 0,
            };
            a.received_at < b.received_at || reply_a < reply_b
        },
        _ => false,
    }
}

/// Puts the slots in order, the most recently active thread first: as many
/// sweeps as there are slots, each comparing neighbours from the front and
/// stopping one pair earlier than the sweep before it.
pub fn sort_slots(slots: &mut [Option<Message>])
    ensures
        final(slots)@ == reordered(old(slots)@),
        final(slots)@.len() == old(slots)@.len(),
        same_gaps(old(slots)@, final(slots)@),
        final(slots)@.to_multiset() == old(slots)@.to_multiset(),
        agreeing(old(slots)@) ==> ordered(final(slots)@) && settled(final(slots)@),
{
    proof {
        lemma_reorder_keeps_contents(slots@);
        if agreeing(slots@) {
            lemma_reorder_orders(slots@);
        }
    }
    let n = slots.len();
    let mut i: usize = 0;
    while i < n
        invariant
            i <= n,
            n == slots@.len(),
            n == old(slots)@.len(),
            slots@ == sweeps(old(slots)@, i as int),
        decreases n - i,
    {
        let ghost start = slots@;
        let mut j: usize = 0;
        while j < n - i - 1
            invariant
                i < n,
                j <= n - i - 1,
                n == slots@.len(),
                n == start.len(),
                slots@ == sweep(start, j as int),
            decreases n - i - 1 - j,
        {
            proof {
                lemma_step_shape(slots@, j as int);
            }
            if must_exchange(&slots[j], &slots[j + 1]) {
                let first = slots[j].take();
                let second = slots[j + 1].take();
                slots[j] = second;
                slots[j + 1] = first;
            }
            proof {
                assert(slots@ =~= step(sweep(start, j as int), j as int));
            }
            j += 1;
        }
        i += 1;
    }
}

} // verus!
