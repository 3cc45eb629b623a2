//! Messages and the summary of the thread below them.

use vstd::prelude::*;
use vstd::string::StringSliceAdditionalSpecFns;
use crate::ids::{insert_all_sorted, insert_sorted, names, strictly_sorted};
use crate::mentions::{extract, mentioned};
use crate::reorder::{
    agreeing, lemma_reorder_idempotent, ordered, reordered, same_gaps, sort_slots,
};
use crate::text::utf8;
use crate::timestamp::{seconds, seconds_of};

verus! {

/// The state of the thread below a message.
#[derive(Debug, Clone)]
pub struct Reply {
    /// Whole seconds of the latest reply.
    pub latest_reply: usize,
    /// Timestamp of the latest reply as the platform wrote it.
    pub latest_ts: String,
    /// Who has replied.
    pub users: Vec<String>,
}

/// A message of a channel.
#[derive(Debug, Clone)]
pub struct Message {
    /// The text.
    pub message: String,
    /// The channel it was read from, once known.
    pub channel_id: Option<String>,
    /// Whole seconds of the time it was sent.
    pub received_at: usize,
    /// Timestamp as the platform wrote it; threads are looked up by it.
    pub received_ts: String,
    /// The thread below it, if there is one.
    pub reply: Option<Reply>,
    /// Who sent it.
    pub sender: String,
}

impl Reply {
    /// The seconds were read from the timestamp.
    pub open spec fn derived(&self) -> bool {
        self.latest_reply == seconds_of(utf8(self.latest_ts@))
    }
}

impl Message {
    /// Seconds of the latest reply, 0 where nobody has replied.
    pub open spec fn reply_latest(&self) -> usize {
        match self.reply {
            Some(r) => r.latest_reply,
            None => 0,
        }
    }

    /// Those who have replied.
    pub open spec fn participants(&self) -> Set<Seq<char>> {
        match self.reply {
            Some(r) => names(r.users@),
            None => Set::empty(),
        }
    }

    /// Everyone the message involves: those its text mentions, its sender,
    /// and those who have replied to it.
    pub open spec fn involved(&self) -> Set<Seq<char>> {
        mentioned(self.message@).insert(self.sender@).union(self.participants())
    }

    /// The seconds, of the message and of its thread, were read from the
    /// timestamps.
    pub open spec fn derived(&self) -> bool {
        &&& self.received_at == seconds_of(utf8(self.received_ts@))
        &&& self.reply matches Some(r) ==> r.derived()
    }

    pub fn new(
        message: String,
        sender: String,
        received_at: usize,
        received_ts: String,
        reply: Option<Reply>,
    ) -> (made: Self)
        ensures
            made.message == message,
            made.sender == sender,
            made.received_at == received_at,
            made.received_ts == received_ts,
            made.reply == reply,
            made.channel_id is None,
    {
        Message { message, received_at, received_ts, reply, sender, channel_id: None }
    }

    /// Whole seconds of a timestamp: the number before its first dot, 0 where
    /// none stands there.
    pub fn parse_ts(ts: &str) -> (secs: usize)
        ensures
            secs == seconds_of(ts.spec_bytes()),
    {
        seconds(ts)
    }

    /// The identifiers that the text mentions, sorted and each once.
    pub fn find_users_in_text(&self) -> (found: Vec<String>)
        ensures
            strictly_sorted(found@),
            names(found@) == mentioned(self.message@),
    {
        extract(self.message.as_str())
    }

    /// Everyone the message involves, sorted and each once.
    pub fn users_list(&self) -> (users: Vec<String>)
        ensures
            strictly_sorted(users@),
            names(users@) == self.involved(),
    {
        let mut users = self.find_users_in_text();
        insert_sorted(&mut users, self.sender.clone());
        match &self.reply {
            Some(thread) => {
                insert_all_sorted(&mut users, &thread.users);
            },
            None => {
                proof {
                    assert(names(users@).union(Set::empty()) =~= names(users@));
                }
            },
        }
        users
    }

    /// Puts tracked messages in order, the most recently active thread
    /// first. Empty slots stay where they are.
    pub fn bubble_sort<const M: usize>(messages: &mut Box<[Option<Message>; M]>)
        ensures
            final(messages)@ == reordered(old(messages)@),
            same_gaps(old(messages)@, final(messages)@),
            final(messages)@.to_multiset() == old(messages)@.to_multiset(),
            agreeing(old(messages)@) ==> ordered(final(messages)@),
            agreeing(old(messages)@) ==> reordered(final(messages)@) == final(messages)@,
    {
        proof {
            if agreeing(messages@) {
                lemma_reorder_idempotent(messages@);
            }
        }
        let slots: &mut [Option<Message>; M] = &mut **messages;
        sort_slots(slots);
    }

    /// Records the channel that the message was read from.
    pub fn set_channel_id(&mut self, channel_id: &str)
        ensures
            final(self).channel_id matches Some(id) && id@ == channel_id@,
            final(self).message == old(self).message,
            final(self).received_at == old(self).received_at,
            final(self).received_ts == old(self).received_ts,
            final(self).reply == old(self).reply,
            final(self).sender == old(self).sender,
    {
        self.channel_id = Some(channel_id.to_owned());
    }
}

} // verus!
