//! One poller, cycle after cycle: look up the thread of each tracked
//! message, take in the new messages of each channel, reorder the window,
//! raise the signal or not, sleep, and start again.
//!
//! The poller decides and remembers; whoever drives it does the outside
//! work. Each step takes the outcome of the last action and answers with
//! the next one. Reordering needs nothing from outside: the poller asks to
//! be stepped on, and reorders in the step that follows.

use vstd::prelude::*;
use crate::channels::Channel;
use crate::messages::{Message, Reply};
use crate::notify::{notifies, should_notify, Sighting};
use crate::reorder::{reordered, Slots};
use crate::users::listed;
use crate::window::{entered, refreshed, vacant, with_reply, TrackingWindow};

verus! {

/// Seconds between two cycles.
pub const PAUSE: u64 = 300;

/// The time of a capture in seconds, as the poller keeps it: what the clock
/// gave, cut to the width of the machine word, and 0 where the clock gave
/// nothing.
pub open spec fn capture_time(clock: Option<u64>) -> usize {
    match clock {
        Some(secs) => secs as usize,
        None => 0,
    }
}

/// The time of a capture from what the clock gave.
pub fn last_run(clock: Option<u64>) -> (now: usize)
    ensures
        now == capture_time(clock),
{
    match clock {
        Some(secs) => #[verifier::truncate]
        (secs as usize),
        None => 0,
    }
}

/// What the poller is waiting for.
#[derive(Debug, Clone, Copy, PartialEq, Eq, Structural)]
pub enum Phase {
    /// The head of the thread in the slot at `position`.
    RefreshReplies,
    /// The new messages of the channel at `position`.
    IngestNewMessages,
    /// The next step, in which it puts the window in order.
    Reorder,
    /// The signal to be delivered.
    Decide,
    /// The end of the pause.
    Sleep,
}

/// Outside work that the poller asks for.
#[derive(Debug)]
pub enum Action {
    /// Ask for the one message at `thread_ts` in the channel.
    FetchThreadHead { slot: usize, channel_id: String, thread_ts: String },
    /// Ask for the new messages of the channel.
    FetchHistory { channel: usize, channel_id: String },
    /// Nothing to do outside; step on.
    Proceed,
    /// Deliver the signal of this cycle, then read the clock.
    Notify { signal: bool },
    /// Pause.
    Sleep { seconds: u64 },
}

/// How the outside work ended.
#[derive(Debug)]
pub enum Event {
    /// The pause is over.
    Woke,
    /// The thread as it stands now; nothing where none was found or the
    /// request failed.
    ThreadHead(Option<Reply>),
    /// The new messages of the channel, with no channel set yet; nothing
    /// where the request failed.
    History(Option<Vec<Message>>),
    /// Nothing was asked for.
    Proceed,
    /// The signal was delivered at `now`, in seconds.
    Notified { now: usize },
}

pub struct Poller<'a> {
    pub window: TrackingWindow,
    pub channels: Vec<Channel>,
    /// Identifiers of the users who are followed.
    pub followed: Vec<&'a str>,
    /// When the last cycle made its decision.
    pub last_capture_at: usize,
    pub phase: Phase,
    /// The slot or the channel that is being worked on.
    pub position: usize,
    /// Whether anything in this cycle has raised the signal yet.
    pub signal: bool,
}

/// The poller as contracts see it.
pub struct State {
    pub slots: Slots,
    pub channels: Seq<Channel>,
    pub followed: Set<Seq<char>>,
    pub last_capture_at: usize,
    pub phase: Phase,
    pub position: int,
    pub signal: bool,
}

/// A slot whose thread can be looked up: it holds a message, and the
/// channel of the message is known.
pub open spec fn trackable(slot: Option<Message>) -> bool {
    slot matches Some(m) && m.channel_id is Some
}

/// The first trackable slot at `from` or after it; the number of slots
/// where there is none.
pub open spec fn next_thread(slots: Slots, from: int) -> int
    decreases slots.len() - from,
{
    if from < 0 || from >= slots.len() {
        slots.len() as int
    } else if trackable(slots[from]) {
        from
    } else {
        next_thread(slots, from + 1)
    }
}

/// The first channel at `from` or after it that is not skipped; the number
/// of channels where there is none.
pub open spec fn next_channel(channels: Seq<Channel>, from: int) -> int
    decreases channels.len() - from,
{
    if from < 0 || from >= channels.len() {
        channels.len() as int
    } else if !channels[from].should_skip {
        from
    } else {
        next_channel(channels, from + 1)
    }
}

/// The message `m` as read from the channel `channel_id`.
pub open spec fn in_channel(m: Message, channel_id: String) -> Message {
    Message { channel_id: Some(channel_id), ..m }
}

/// The state after the messages `msgs` of one channel were taken in, the
/// first of them first: each enters the window at the front, and each may
/// raise the signal.
pub open spec fn took_in(st: State, msgs: Seq<Message>, channel_id: String) -> State
    decreases msgs.len(),
{
    if msgs.len() == 0 {
        st
    } else {
        let before = took_in(st, msgs.drop_last(), channel_id);
        let m = in_channel(msgs.last(), channel_id);
        State {
            slots: entered(before.slots, m),
            signal: before.signal || notifies(
                m,
                Sighting::Message,
                st.followed,
                st.last_capture_at,
            ),
            ..before
        }
    }
}

/// The state after the thread of the message in the slot at `position` was
/// looked up. A thread that was found replaces the one of the tracked
/// message, which may raise the signal; none changes nothing.
pub open spec fn merged(st: State, thread: Option<Reply>) -> State {
    match (thread, st.slots[st.position]) {
        (Some(r), Some(m)) => State {
            slots: refreshed(st.slots, st.position, r),
            signal: st.signal || notifies(
                with_reply(m, r),
                Sighting::Reply,
                st.followed,
                st.last_capture_at,
            ),
            ..st
        },
        _ => st,
    }
}

/// Ingestion is over; the window is to be put in order next.
pub open spec fn ingested(st: State) -> (State, Action) {
    (State { phase: Phase::Reorder, position: 0, ..st }, Action::Proceed)
}

/// The window is put in order and the signal of the cycle goes out.
pub open spec fn concluded(st: State) -> (State, Action) {
    (
        State { slots: reordered(st.slots), phase: Phase::Decide, ..st },
        Action::Notify { signal: st.signal },
    )
}

/// Ingestion goes on with the first channel at `from` or after it that is
/// not skipped; after the last one it is over.
pub open spec fn sought_channel(st: State, from: int) -> (State, Action) {
    let c = next_channel(st.channels, from);
    if c < st.channels.len() {
        (
            State { phase: Phase::IngestNewMessages, position: c, ..st },
            Action::FetchHistory { channel: c as usize, channel_id: st.channels[c].channel_id },
        )
    } else {
        ingested(st)
    }
}

/// The refresh goes on with the first trackable slot at `from` or after it;
/// after the last one ingestion begins.
pub open spec fn sought_thread(st: State, from: int) -> (State, Action) {
    let p = next_thread(st.slots, from);
    if p < st.slots.len() {
        (
            State { phase: Phase::RefreshReplies, position: p, ..st },
            Action::FetchThreadHead {
                slot: p as usize,
                channel_id: st.slots[p]->0.channel_id->0,
                thread_ts: st.slots[p]->0.received_ts,
            },
        )
    } else {
        sought_channel(st, 0)
    }
}

/// The action that the poller is waiting on.
pub open spec fn pending(st: State) -> Action {
    match st.phase {
        Phase::RefreshReplies => Action::FetchThreadHead {
            slot: st.position as usize,
            channel_id: st.slots[st.position]->0.channel_id->0,
            thread_ts: st.slots[st.position]->0.received_ts,
        },
        Phase::IngestNewMessages => Action::FetchHistory {
            channel: st.position as usize,
            channel_id: st.channels[st.position].channel_id,
        },
        Phase::Reorder => Action::Proceed,
        Phase::Decide => Action::Notify { signal: st.signal },
        Phase::Sleep => Action::Sleep { seconds: PAUSE },
    }
}

/// The step of the poller: the state and the action that follow on `event`.
/// An event that the phase does not wait for changes nothing, and the
/// pending action is asked for again.
pub open spec fn next(st: State, event: Event) -> (State, Action) {
    match (st.phase, event) {
        (Phase::Sleep, Event::Woke) => sought_thread(State { signal: false, ..st }, 0),
        (Phase::RefreshReplies, Event::ThreadHead(thread)) => sought_thread(
            merged(st, thread),
            st.position + 1,
        ),
        (Phase::IngestNewMessages, Event::History(page)) => sought_channel(
            match page {
                Some(msgs) => took_in(st, msgs@, st.channels[st.position].channel_id),
                None => st,
            },
            st.position + 1,
        ),
        (Phase::Reorder, Event::Proceed) => concluded(st),
        (Phase::Decide, Event::Notified { now }) => (
            State { last_capture_at: now, phase: Phase::Sleep, ..st },
            Action::Sleep { seconds: PAUSE },
        ),
        _ => (st, pending(st)),
    }
}

/// The position points at what the phase is waiting for.
pub open spec fn consistent(st: State) -> bool {
    match st.phase {
        Phase::RefreshReplies => 0 <= st.position < st.slots.len() && trackable(
            st.slots[st.position],
        ),
        Phase::IngestNewMessages => 0 <= st.position < st.channels.len()
            && !st.channels[st.position].should_skip,
        _ => true,
    }
}

/// The search for a thread ends at the first trackable slot.
pub proof fn lemma_next_thread(slots: Slots, from: int, p: int)
    requires
        0 <= from <= p <= slots.len(),
        forall|k: int| from <= k < p ==> !trackable(#[trigger] slots[k]),
        p < slots.len() ==> trackable(slots[p]),
    ensures
        next_thread(slots, from) == p,
    decreases p - from,
{
    if from < p {
        lemma_next_thread(slots, from + 1, p);
    }
}

/// The search for a channel ends at the first one that is not skipped.
pub proof fn lemma_next_channel(channels: Seq<Channel>, from: int, c: int)
    requires
        0 <= from <= c <= channels.len(),
        forall|k: int| from <= k < c ==> (#[trigger] channels[k]).should_skip,
        c < channels.len() ==> !channels[c].should_skip,
    ensures
        next_channel(channels, from) == c,
    decreases c - from,
{
    if from < c {
        lemma_next_channel(channels, from + 1, c);
    }
}

/// Where the search for a thread ends, a trackable slot stands, unless it
/// ends behind the last slot.
pub proof fn lemma_next_thread_found(slots: Slots, from: int)
    requires
        0 <= from,
    ensures
        from <= next_thread(slots, from) || next_thread(slots, from) == slots.len(),
        0 <= next_thread(slots, from) <= slots.len(),
        next_thread(slots, from) < slots.len() ==> trackable(slots[next_thread(slots, from)]),
    decreases slots.len() - from,
{
    if from < slots.len() && !trackable(slots[from]) {
        lemma_next_thread_found(slots, from + 1);
    }
}

/// Where the search for a channel ends, a channel stands that is not
/// skipped, unless it ends behind the last channel.
pub proof fn lemma_next_channel_found(channels: Seq<Channel>, from: int)
    requires
        0 <= from,
    ensures
        0 <= next_channel(channels, from) <= channels.len(),
        next_channel(channels, from) < channels.len() ==> !channels[next_channel(
            channels,
            from,
        )].should_skip,
    decreases channels.len() - from,
{
    if from < channels.len() && channels[from].should_skip {
        lemma_next_channel_found(channels, from + 1);
    }
}

/// Taking in messages changes the window and may raise the signal; it
/// changes nothing else, keeps the number of slots, and never lowers the
/// signal.
pub proof fn lemma_took_in_keeps(st: State, msgs: Seq<Message>, channel_id: String)
    ensures
        took_in(st, msgs, channel_id).slots.len() == st.slots.len(),
        took_in(st, msgs, channel_id).channels == st.channels,
        took_in(st, msgs, channel_id).followed == st.followed,
        took_in(st, msgs, channel_id).last_capture_at == st.last_capture_at,
        took_in(st, msgs, channel_id).phase == st.phase,
        took_in(st, msgs, channel_id).position == st.position,
        st.signal ==> took_in(st, msgs, channel_id).signal,
    decreases msgs.len(),
{
    if msgs.len() > 0 {
        lemma_took_in_keeps(st, msgs.drop_last(), channel_id);
    }
}

/// The seconds of every message in the window were read from its
/// timestamps.
pub open spec fn all_derived(slots: Slots) -> bool {
    forall|k: int| 0 <= k < slots.len() ==> ((#[trigger] slots[k]) matches Some(m) ==> m.derived())
}

/// The seconds of every message that an event brings were read from its
/// timestamps.
pub open spec fn brings_derived(event: Event) -> bool {
    match event {
        Event::ThreadHead(Some(r)) => r.derived(),
        Event::History(Some(msgs)) => forall|k: int|
            0 <= k < msgs@.len() ==> (#[trigger] msgs@[k]).derived(),
        _ => true,
    }
}

/// Messages taken in keep the window derived.
pub proof fn lemma_took_in_derived(st: State, msgs: Seq<Message>, channel_id: String)
    requires
        all_derived(st.slots),
        forall|k: int| 0 <= k < msgs.len() ==> (#[trigger] msgs[k]).derived(),
    ensures
        all_derived(took_in(st, msgs, channel_id).slots),
    decreases msgs.len(),
{
    if msgs.len() > 0 {
        let earlier = msgs.drop_last();
        assert forall|k: int| 0 <= k < earlier.len() implies (#[trigger] earlier[k]).derived() by {
            assert(earlier[k] == msgs[k]);
        }
        lemma_took_in_derived(st, earlier, channel_id);
        let before = took_in(st, earlier, channel_id).slots;
        let after = took_in(st, msgs, channel_id).slots;
        assert(msgs[msgs.len() - 1].derived());
        assert forall|k: int| 0 <= k < after.len() implies ((#[trigger] after[k]) matches Some(m)
            ==> m.derived()) by {
            if k > 0 {
                assert(after[k] == before[k - 1]);
            }
        }
    }
}

/// As long as the seconds of what comes in were read from its timestamps,
/// so were those of everything in the window.
pub proof fn lemma_step_keeps_derived(st: State, event: Event)
    requires
        consistent(st),
        all_derived(st.slots),
        brings_derived(event),
    ensures
        all_derived(next(st, event).0.slots),
{
    let mid: State = match (st.phase, event) {
        (Phase::Sleep, Event::Woke) => State { signal: false, ..st },
        (Phase::RefreshReplies, Event::ThreadHead(thread)) => merged(st, thread),
        (Phase::IngestNewMessages, Event::History(Some(msgs))) => {
            lemma_took_in_derived(st, msgs@, st.channels[st.position].channel_id);
            took_in(st, msgs@, st.channels[st.position].channel_id)
        },
        _ => st,
    };
    if let (Phase::RefreshReplies, Event::ThreadHead(Some(r))) = (st.phase, event) {
        assert forall|k: int| 0 <= k < mid.slots.len() implies ((#[trigger] mid.slots[k]) matches Some(
            m,
        ) ==> m.derived()) by {
            assert(st.slots[k] matches Some(m) ==> m.derived());
        }
    }
    assert(all_derived(mid.slots));
    let after = next(st, event).0.slots;
    if after != mid.slots {
        assert(after == reordered(mid.slots));
        crate::reorder::lemma_reorder_keeps_contents(mid.slots);
        assert forall|k: int| 0 <= k < after.len() implies ((#[trigger] after[k]) matches Some(m)
            ==> m.derived()) by {
            crate::reorder::lemma_reorder_moves_only(mid.slots, k);
            let j = choose|j: int| 0 <= j < mid.slots.len() && mid.slots[j] == after[k];
            assert(mid.slots[j] matches Some(m) ==> m.derived());
        }
    }
}

/// What every step keeps. The window has as many slots after it as before,
/// and the channels and the followed users are the same. The poller stays
/// consistent, and the action it answers with is the one its new state
/// waits on. The time of the last capture changes only when the signal was
/// delivered, and the signal is lowered only when a cycle begins.
pub proof fn lemma_step_keeps(st: State, event: Event)
    requires
        consistent(st),
    ensures
        next(st, event).0.slots.len() == st.slots.len(),
        next(st, event).0.channels == st.channels,
        next(st, event).0.followed == st.followed,
        consistent(next(st, event).0),
        next(st, event).1 == pending(next(st, event).0),
        next(st, event).0.last_capture_at != st.last_capture_at ==> st.phase == Phase::Decide
            && event is Notified,
        st.signal && !next(st, event).0.signal ==> st.phase == Phase::Sleep && event is Woke,
{
    match (st.phase, event) {
        (Phase::Sleep, Event::Woke) => {
            lemma_sought_thread_keeps(State { signal: false, ..st }, 0);
        },
        (Phase::RefreshReplies, Event::ThreadHead(thread)) => {
            lemma_sought_thread_keeps(merged(st, thread), st.position + 1);
        },
        (Phase::IngestNewMessages, Event::History(page)) => {
            let taken = match page {
                Some(msgs) => took_in(st, msgs@, st.channels[st.position].channel_id),
                None => st,
            };
            if let Some(msgs) = page {
                lemma_took_in_keeps(st, msgs@, st.channels[st.position].channel_id);
            }
            lemma_sought_channel_keeps(taken, st.position + 1);
        },
        (Phase::Reorder, Event::Proceed) => {
            crate::reorder::lemma_reorder_keeps_contents(st.slots);
        },
        _ => {},
    }
}

/// Going on to the next channel, or to reordering, changes neither the
/// window nor the signal nor the time of the last capture.
pub proof fn lemma_sought_channel_keeps(st: State, from: int)
    requires
        0 <= from,
    ensures
        sought_channel(st, from).0.slots == st.slots,
        sought_channel(st, from).0.channels == st.channels,
        sought_channel(st, from).0.followed == st.followed,
        sought_channel(st, from).0.last_capture_at == st.last_capture_at,
        sought_channel(st, from).0.signal == st.signal,
        consistent(sought_channel(st, from).0),
        sought_channel(st, from).1 == pending(sought_channel(st, from).0),
{
    lemma_next_channel_found(st.channels, from);
}

/// Going on to the next thread, or to ingestion, changes neither the
/// window nor the signal nor the time of the last capture.
pub proof fn lemma_sought_thread_keeps(st: State, from: int)
    requires
        0 <= from,
    ensures
        sought_thread(st, from).0.slots == st.slots,
        sought_thread(st, from).0.channels == st.channels,
        sought_thread(st, from).0.followed == st.followed,
        sought_thread(st, from).0.last_capture_at == st.last_capture_at,
        sought_thread(st, from).0.signal == st.signal,
        consistent(sought_thread(st, from).0),
        sought_thread(st, from).1 == pending(sought_thread(st, from).0),
{
    lemma_next_thread_found(st.slots, from);
    lemma_sought_channel_keeps(st, 0);
}

impl<'a> View for Poller<'a> {
    type V = State;

    open spec fn view(&self) -> State {
        State {
            slots: self.window@,
            channels: self.channels@,
            followed: listed(self.followed@),
            last_capture_at: self.last_capture_at,
            phase: self.phase,
            position: self.position as int,
            signal: self.signal,
        }
    }
}

impl<'a> Poller<'a> {
    /// The position points at what the phase is waiting for.
    pub open spec fn wf(&self) -> bool {
        consistent(self@)
    }

    /// A poller with an empty window of `capacity` slots, pausing before its
    /// first cycle. `now` is the time of the start, in seconds.
    pub fn new(channels: Vec<Channel>, followed: Vec<&'a str>, capacity: usize, now: usize) -> (poller:
        Self)
        ensures
            poller.wf(),
            poller@ == (State {
                slots: vacant(capacity as nat),
                channels: channels@,
                followed: listed(followed@),
                last_capture_at: now,
                phase: Phase::Sleep,
                position: 0,
                signal: false,
            }),
    {
        Poller {
            window: TrackingWindow::new(capacity),
            channels,
            followed,
            last_capture_at: now,
            phase: Phase::Sleep,
            position: 0,
            signal: false,
        }
    }

    /// Whether the position points at what the phase is waiting for.
    pub fn is_consistent(&self) -> (yes: bool)
        ensures
            yes == self.wf(),
    {
        match self.phase {
            Phase::RefreshReplies => self.position < self.window.capacity() && match self.window.slot(
                self.position,
            ) {
                Some(m) => m.channel_id.is_some(),
                None => false,
            },
            Phase::IngestNewMessages => self.position < self.channels.len()
                && !self.channels[self.position].should_skip,
            _ => true,
        }
    }

    fn conclude(&mut self) -> (action: Action)
        ensures
            final(self).wf(),
            (final(self)@, action) == concluded(old(self)@),
    {
        self.window.reorder();
        self.phase = Phase::Decide;
        Action::Notify { signal: self.signal }
    }

    fn seek_channel(&mut self, from: usize) -> (action: Action)
        requires
            from <= old(self).channels@.len(),
        ensures
            final(self).wf(),
            (final(self)@, action) == sought_channel(old(self)@, from as int),
    {
        let mut c: usize = from;
        while c < self.channels.len() && self.channels[c].should_skip
            invariant
                from <= c <= self.channels@.len(),
                forall|k: int| from <= k < c ==> (#[trigger] self.channels@[k]).should_skip,
            decreases self.channels@.len() - c,
        {
            c += 1;
        }
        proof {
            lemma_next_channel(self.channels@, from as int, c as int);
        }
        if c < self.channels.len() {
            self.phase = Phase::IngestNewMessages;
            self.position = c;
            Action::FetchHistory { channel: c, channel_id: self.channels[c].channel_id.clone() }
        } else {
            self.phase = Phase::Reorder;
            self.position = 0;
            Action::Proceed
        }
    }

    fn seek_thread(&mut self, from: usize) -> (action: Action)
        requires
            from <= old(self).window@.len(),
        ensures
            final(self).wf(),
            (final(self)@, action) == sought_thread(old(self)@, from as int),
    {
        let n = self.window.capacity();
        let mut p: usize = from;
        while p < n
            invariant
                from <= p <= n,
                n == self.window@.len(),
                *self == *old(self),
                forall|k: int| from <= k < p ==> !trackable(#[trigger] self.window@[k]),
            decreases n - p,
        {
            if let Some(m) = self.window.slot(p) {
                if let Some(id) = &m.channel_id {
                    let action = Action::FetchThreadHead {
                        slot: p,
                        channel_id: id.clone(),
                        thread_ts: m.received_ts.clone(),
                    };
                    proof {
                        lemma_next_thread(self.window@, from as int, p as int);
                    }
                    self.phase = Phase::RefreshReplies;
                    self.position = p;
                    return action;
                }
            }
            p += 1;
        }
        proof {
            lemma_next_thread(self.window@, from as int, p as int);
        }
        self.seek_channel(0)
    }

    fn merge(&mut self, thread: Option<Reply>)
        requires
            old(self).position < old(self).window@.len(),
        ensures
            final(self)@ == merged(old(self)@, thread),
            final(self).phase == old(self).phase,
    {
        if let Some(r) = thread {
            self.window.refresh_slot(self.position, r);
            let raised = match self.window.slot(self.position) {
                Some(m) => should_notify(m, Sighting::Reply, &self.followed, self.last_capture_at),
                None => false,
            };
            if raised {
                self.signal = true;
            }
        }
    }

    /// Takes the outcome of the last action and answers with the next one.
    pub fn step(&mut self, event: Event) -> (action: Action)
        requires
            old(self).wf(),
        ensures
            final(self).wf(),
            (final(self)@, action) == next(old(self)@, event),
    {
        match (self.phase, event) {
            (Phase::Sleep, Event::Woke) => {
                self.signal = false;
                self.seek_thread(0)
            },
            (Phase::RefreshReplies, Event::ThreadHead(thread)) => {
                let slots = self.window.capacity();
                let from = self.position + 1;
                self.merge(thread);
                self.seek_thread(from)
            },
            (Phase::IngestNewMessages, Event::History(page)) => {
                let channels = self.channels.len();
                let from = self.position + 1;
                if let Some(msgs) = page {
                    self.take_in(msgs);
                }
                self.seek_channel(from)
            },
            (Phase::Reorder, Event::Proceed) => self.conclude(),
            (Phase::Decide, Event::Notified { now }) => {
                self.last_capture_at = now;
                self.phase = Phase::Sleep;
                Action::Sleep { seconds: PAUSE }
            },
            _ => self.pending_action(),
        }
    }

    /// The action that the poller is waiting on.
    pub fn pending_action(&self) -> (action: Action)
        requires
            self.wf(),
        ensures
            action == pending(self@),
    {
        match self.phase {
            Phase::RefreshReplies => match self.window.slot(self.position) {
                Some(m) => match &m.channel_id {
                    Some(id) => Action::FetchThreadHead {
                        slot: self.position,
                        channel_id: id.clone(),
                        thread_ts: m.received_ts.clone(),
                    },
                    None => Action::Sleep { seconds: PAUSE },
                },
                None => Action::Sleep { seconds: PAUSE },
            },
            Phase::IngestNewMessages => Action::FetchHistory {
                channel: self.position,
                channel_id: self.channels[self.position].channel_id.clone(),
            },
            Phase::Reorder => Action::Proceed,
            Phase::Decide => Action::Notify { signal: self.signal },
            Phase::Sleep => Action::Sleep { seconds: PAUSE },
        }
    }

    fn take_in(&mut self, msgs: Vec<Message>)
        requires
            old(self).position < old(self).channels@.len(),
        ensures
            final(self)@ == took_in(
                old(self)@,
                msgs@,
                old(self).channels@[old(self).position as int].channel_id,
            ),
            final(self).phase == old(self).phase,
            final(self).position == old(self).position,
            final(self).channels == old(self).channels,
    {
        let mut msgs = msgs;
        let ghost all = msgs@;
        let ghost id = self.channels@[self.position as int].channel_id;
        let mut k: usize = 0;
        let total = msgs.len();
        proof {
            assert(all.take(0) =~= Seq::empty());
        }
        while msgs.len() > 0
            invariant
                k + msgs@.len() == total,
                total == all.len(),
                msgs@ == all.skip(k as int),
                self.position < self.channels@.len(),
                self.channels == old(self).channels,
                self.position == old(self).position,
                self.phase == old(self).phase,
                self.followed == old(self).followed,
                self.last_capture_at == old(self).last_capture_at,
                id == self.channels@[self.position as int].channel_id,
                self@ == took_in(old(self)@, all.take(k as int), id),
            decreases msgs@.len(),
        {
            let m = msgs.remove(0);
            proof {
                assert(m == all[k as int]);
                assert(all.take(k + 1).drop_last() =~= all.take(k as int));
                assert(msgs@ =~= all.skip(k + 1));
            }
            let Message { message, channel_id: _, received_at, received_ts, reply, sender } = m;
            let placed = Message {
                message,
                channel_id: Some(self.channels[self.position].channel_id.clone()),
                received_at,
                received_ts,
                reply,
                sender,
            };
            if should_notify(&placed, Sighting::Message, &self.followed, self.last_capture_at) {
                self.signal = true;
            }
            self.window.insert_newest(placed);
            k += 1;
        }
        proof {
            assert(all.take(k as int) =~= all);
        }
    }
}

} // verus!
