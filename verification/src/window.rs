//! The tracking window: a fixed number of slots for the threads that are
//! watched, the most recent first. A new message enters at the front and
//! pushes the others one slot back; what was in the last slot is dropped.

use vstd::prelude::*;
use crate::messages::{Message, Reply};
use crate::reorder::{agreeing, ordered, reordered, same_gaps, sort_slots, Slots};

verus! {

/// Slots of the window that the poller keeps.
pub const CAPACITY: usize = 30;

/// A window of `capacity` empty slots.
pub open spec fn vacant(capacity: nat) -> Slots {
    Seq::new(capacity, |i: int| None::<Message>)
}

/// The slots after `msg` has entered at the front. A window without slots
/// takes nothing in.
pub open spec fn entered(s: Slots, msg: Message) -> Slots {
    if s.len() == 0 {
        s
    } else {
        seq![Some(msg)] + s.drop_last()
    }
}

/// The slots after each of `msgs` has entered, the first of them first.
pub open spec fn fed(s: Slots, msgs: Seq<Message>) -> Slots
    decreases msgs.len(),
{
    if msgs.len() == 0 {
        s
    } else {
        entered(fed(s, msgs.drop_last()), msgs.last())
    }
}

/// How many slots hold a message.
pub open spec fn occupied(s: Slots) -> nat
    decreases s.len(),
{
    if s.len() == 0 {
        0
    } else {
        occupied(s.drop_last()) + if s.last() is Some {
            1nat
        } else {
            0nat
        }
    }
}

/// The message `m` with the thread below it replaced by `reply`.
pub open spec fn with_reply(m: Message, reply: Reply) -> Message {
    Message { reply: Some(reply), ..m }
}

/// The slots after the thread of the message in slot `i` has been replaced.
/// An empty slot stays empty.
pub open spec fn refreshed(s: Slots, i: int, reply: Reply) -> Slots {
    match s[i] {
        Some(m) => s.update(i, Some(with_reply(m, reply))),
        None => s,
    }
}

/// Slots that are occupied up to `k` and empty from there on hold `k`
/// messages.
pub proof fn lemma_occupied_front(s: Slots, k: int)
    requires
        0 <= k <= s.len(),
        forall|i: int| 0 <= i < k ==> (#[trigger] s[i]) is Some,
        forall|i: int| k <= i < s.len() ==> (#[trigger] s[i]) is None,
    ensures
        occupied(s) == k,
    decreases s.len(),
{
    if s.len() > 0 {
        let front = s.drop_last();
        if k == s.len() {
            lemma_occupied_front(front, k - 1);
        } else {
            lemma_occupied_front(front, k);
        }
    }
}

/// A message that enters never changes the number of slots.
pub proof fn lemma_entered_len(s: Slots, msg: Message)
    ensures
        entered(s, msg).len() == s.len(),
{
}

/// A message that enters adds one to the occupied slots, unless it pushes
/// another one out.
pub proof fn lemma_entered_occupied(s: Slots, msg: Message)
    requires
        s.len() > 0,
    ensures
        occupied(entered(s, msg)) == if s.last() is Some {
            occupied(s)
        } else {
            occupied(s) + 1
        },
{
    lemma_occupied_shifted(s.drop_last(), msg);
}

/// One more occupied slot at the front is one more occupied slot.
proof fn lemma_occupied_shifted(s: Slots, msg: Message)
    ensures
        occupied(seq![Some(msg)] + s) == occupied(s) + 1,
    decreases s.len(),
{
    let t = seq![Some(msg)] + s;
    if s.len() == 0 {
        assert(t.drop_last() =~= Seq::<Option<Message>>::empty());
        assert(occupied(t.drop_last()) == 0);
    } else {
        lemma_occupied_shifted(s.drop_last(), msg);
        assert(t.drop_last() =~= seq![Some(msg)] + s.drop_last());
        assert(t.last() == s.last());
    }
}

/// After any number of messages have entered an empty window, it holds the
/// latest of them, as many as it has slots for, the most recent in slot 0
/// and each earlier one a slot further back.
pub proof fn lemma_fed_window(capacity: nat, msgs: Seq<Message>)
    ensures
        fed(vacant(capacity), msgs).len() == capacity,
        forall|i: int|
            0 <= i < capacity ==> #[trigger] fed(vacant(capacity), msgs)[i] == if i < msgs.len() {
                Some(msgs[msgs.len() - 1 - i])
            } else {
                None
            },
        occupied(fed(vacant(capacity), msgs)) == if msgs.len() <= capacity {
            msgs.len()
        } else {
            capacity
        },
    decreases msgs.len(),
{
    let w = fed(vacant(capacity), msgs);
    if msgs.len() > 0 {
        let earlier = msgs.drop_last();
        let before = fed(vacant(capacity), earlier);
        lemma_fed_window(capacity, earlier);
        assert forall|i: int| 0 <= i < capacity implies #[trigger] w[i] == if i < msgs.len() {
            Some(msgs[msgs.len() - 1 - i])
        } else {
            None
        } by {
            if i > 0 {
                assert(w[i] == before[i - 1]);
                if i - 1 < earlier.len() {
                    assert(earlier[earlier.len() - 1 - (i - 1)] == msgs[msgs.len() - 1 - i]);
                }
            }
        }
    }
    let k: int = if msgs.len() <= capacity { msgs.len() as int } else { capacity as int };
    lemma_occupied_front(w, k);
}

/// A refresh takes no thread away: whatever message had one before has one
/// after, and no message moves.
pub proof fn lemma_refresh_keeps_threads(s: Slots, i: int, reply: Reply)
    requires
        0 <= i < s.len(),
    ensures
        refreshed(s, i, reply).len() == s.len(),
        forall|k: int|
            0 <= k < s.len() ==> match (#[trigger] s[k], refreshed(s, i, reply)[k]) {
                (Some(before), Some(after)) => {
                    &&& after.message == before.message
                    &&& after.sender == before.sender
                    &&& after.channel_id == before.channel_id
                    &&& after.received_at == before.received_at
                    &&& after.received_ts == before.received_ts
                    &&& before.reply is Some ==> after.reply is Some
                    &&& k == i ==> after.reply == Some(reply)
                    &&& k != i ==> after.reply == before.reply
                },
                (None, None) => true,
                _ => false,
            },
{
}

pub struct TrackingWindow {
    slots: Vec<Option<Message>>,
}

impl View for TrackingWindow {
    type V = Slots;

    closed spec fn view(&self) -> Slots {
        self.slots@
    }
}

impl TrackingWindow {
    /// A window of `capacity` slots, all empty.
    pub fn new(capacity: usize) -> (window: Self)
        ensures
            window@ == vacant(capacity as nat),
    {
        let mut slots: Vec<Option<Message>> = Vec::new();
        let mut k: usize = 0;
        while k < capacity
            invariant
                k <= capacity,
                slots@.len() == k,
                forall|i: int| 0 <= i < k ==> slots@[i] is None,
            decreases capacity - k,
        {
            slots.push(None);
            k += 1;
        }
        proof {
            assert(slots@ =~= vacant(capacity as nat));
        }
        TrackingWindow { slots }
    }

    /// The number of slots.
    pub fn capacity(&self) -> (n: usize)
        ensures
            n == self@.len(),
    {
        self.slots.len()
    }

    /// What slot `i` holds.
    pub fn slot(&self, i: usize) -> (held: &Option<Message>)
        requires
            i < self@.len(),
        ensures
            *held == self@[i as int],
    {
        &self.slots[i]
    }

    /// How many slots hold a message.
    pub fn occupied_slots(&self) -> (n: usize)
        ensures
            n == occupied(self@),
    {
        let mut n: usize = 0;
        let mut k: usize = 0;
        while k < self.slots.len()
            invariant
                k <= self.slots@.len(),
                n <= k,
                n == occupied(self.slots@.take(k as int)),
            decreases self.slots@.len() - k,
        {
            proof {
                assert(self.slots@.take(k + 1).drop_last() =~= self.slots@.take(k as int));
            }
            if self.slots[k].is_some() {
                n += 1;
            }
            k += 1;
        }
        proof {
            assert(self.slots@.take(k as int) =~= self.slots@);
        }
        n
    }

    /// Lets `msg` in at slot 0. Every message moves one slot towards the
    /// end, and the one in the last slot leaves the window.
    pub fn insert_newest(&mut self, msg: Message)
        ensures
            final(self)@ == entered(old(self)@, msg),
            final(self)@.len() == old(self)@.len(),
    {
        let n = self.slots.len();
        if n == 0 {
            return ;
        }
        let ghost before = self.slots@;
        let mut k: usize = n - 1;
        while k > 0
            invariant
                k < n,
                n == before.len(),
                self.slots@.len() == n,
                forall|i: int| 0 <= i < k ==> self.slots@[i] == before[i],
                forall|i: int| k < i < n ==> self.slots@[i] == before[i - 1],
            decreases k,
        {
            let moved = self.slots[k - 1].take();
            self.slots[k] = moved;
            k -= 1;
        }
        self.slots[0] = Some(msg);
        proof {
            assert(self.slots@ =~= entered(before, msg));
        }
    }

    /// Replaces the thread of the message in slot `i`. The message stays in
    /// its slot; an empty slot stays empty.
    pub fn refresh_slot(&mut self, i: usize, reply: Reply)
        requires
            i < old(self)@.len(),
        ensures
            final(self)@ == refreshed(old(self)@, i as int, reply),
    {
        let held = self.slots[i].take();
        match held {
            Some(m) => {
                let Message { message, channel_id, received_at, received_ts, reply: _, sender } = m;
                self.slots[i] = Some(
                    Message { message, channel_id, received_at, received_ts, reply: Some(reply), sender },
                );
            },
            None => {},
        }
        proof {
            assert(self.slots@ =~= refreshed(old(self)@, i as int, reply));
        }
    }

    /// Puts the threads in order, the most recently active first.
    pub fn reorder(&mut self)
        ensures
            final(self)@ == reordered(old(self)@),
            final(self)@.len() == old(self)@.len(),
            same_gaps(old(self)@, final(self)@),
            final(self)@.to_multiset() == old(self)@.to_multiset(),
            agreeing(old(self)@) ==> ordered(final(self)@),
            agreeing(old(self)@) ==> reordered(final(self)@) == final(self)@,
    {
        proof {
            if agreeing(self@) {
                crate::reorder::lemma_reorder_idempotent(self@);
            }
        }
        sort_slots(self.slots.as_mut_slice());
    }
}

} // verus!
