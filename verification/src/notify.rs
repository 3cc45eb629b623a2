//! Whether a message raises the signal.

use vstd::prelude::*;
use crate::mentions::mentioned;
use crate::messages::Message;
use crate::users::{listed, overlap, User};

verus! {

/// How a message came before the poller.
#[derive(Debug, Clone, Copy, PartialEq, Eq, Structural)]
pub enum Sighting {
    /// Read from the history of a channel just now.
    Message,
    /// Tracked already; its thread was looked up again.
    Reply,
}

/// The thread below `msg` was replied to after `last_capture_at`.
pub open spec fn replied_since(msg: Message, last_capture_at: usize) -> bool {
    msg.reply matches Some(r) && r.latest_reply > last_capture_at
}

/// Whether `msg` raises the signal. A new message does when it involves
/// somebody who is followed. A tracked one does so only if its thread was
/// also replied to since the last capture.
pub open spec fn notifies(
    msg: Message,
    sighting: Sighting,
    followed: Set<Seq<char>>,
    last_capture_at: usize,
) -> bool {
    match sighting {
        Sighting::Message => overlap(msg.involved(), followed),
        Sighting::Reply => overlap(msg.involved(), followed) && replied_since(
            msg,
            last_capture_at,
        ),
    }
}

/// Whether the thread below `msg` was replied to after `last_capture_at`.
pub fn has_new_reply(msg: &Message, last_capture_at: usize) -> (yes: bool)
    ensures
        yes == replied_since(*msg, last_capture_at),
{
    match &msg.reply {
        Some(r) => r.latest_reply > last_capture_at,
        None => false,
    }
}

/// Decides whether `msg` raises the signal.
pub fn should_notify(
    msg: &Message,
    sighting: Sighting,
    followed: &Vec<&str>,
    last_capture_at: usize,
) -> (signal: bool)
    ensures
        signal == notifies(*msg, sighting, listed(followed@), last_capture_at),
{
    let involved = msg.users_list();
    let hit = User::ids_intersect(&involved, followed);
    match sighting {
        Sighting::Message => hit,
        Sighting::Reply => hit && has_new_reply(msg, last_capture_at),
    }
}

/// A message involves a followed user exactly when its sender is followed,
/// or someone its text mentions, or someone who replied to it.
pub proof fn lemma_involved_cases(msg: Message, followed: Set<Seq<char>>)
    ensures
        overlap(msg.involved(), followed) <==> (followed.contains(msg.sender@) || overlap(
            mentioned(msg.message@),
            followed,
        ) || overlap(msg.participants(), followed)),
{
    if overlap(msg.involved(), followed) {
        let name = choose|name: Seq<char>| msg.involved().contains(name) && followed.contains(name);
        if name != msg.sender@ {
            if mentioned(msg.message@).contains(name) {
                assert(overlap(mentioned(msg.message@), followed));
            } else {
                assert(msg.participants().contains(name));
                assert(overlap(msg.participants(), followed));
            }
        }
    }
    if followed.contains(msg.sender@) {
        assert(msg.involved().contains(msg.sender@));
    }
    if overlap(mentioned(msg.message@), followed) {
        let name = choose|name: Seq<char>|
            mentioned(msg.message@).contains(name) && followed.contains(name);
        assert(msg.involved().contains(name));
    }
    if overlap(msg.participants(), followed) {
        let name = choose|name: Seq<char>| msg.participants().contains(name) && followed.contains(
            name,
        );
        assert(msg.involved().contains(name));
    }
}

/// Whether a new message raises the signal depends neither on when it was
/// sent nor on when the poller last captured.
pub proof fn lemma_new_message_ignores_time(
    msg: Message,
    followed: Set<Seq<char>>,
    sent_at: usize,
    sent_ts: String,
    capture: usize,
    other_capture: usize,
)
    ensures
        notifies(msg, Sighting::Message, followed, capture) == notifies(
            Message { received_at: sent_at, received_ts: sent_ts, ..msg },
            Sighting::Message,
            followed,
            other_capture,
        ),
{
    let moved = Message { received_at: sent_at, received_ts: sent_ts, ..msg };
    assert(moved.involved() == msg.involved());
}

/// A tracked message whose thread was last replied to at the time of the
/// last capture, or before it, never raises the signal.
pub proof fn lemma_seen_reply_is_silent(
    msg: Message,
    followed: Set<Seq<char>>,
    last_capture_at: usize,
)
    requires
        msg.reply_latest() <= last_capture_at,
    ensures
        !notifies(msg, Sighting::Reply, followed, last_capture_at),
{
}

/// A tracked message raises the signal exactly when it would as a new one
/// and its thread was replied to after the last capture.
pub proof fn lemma_reply_adds_time_gate(
    msg: Message,
    followed: Set<Seq<char>>,
    last_capture_at: usize,
)
    ensures
        notifies(msg, Sighting::Reply, followed, last_capture_at) == (notifies(
            msg,
            Sighting::Message,
            followed,
            last_capture_at,
        ) && msg.reply is Some && msg.reply_latest() > last_capture_at),
{
}

} // verus!
