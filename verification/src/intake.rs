//! From what the API sends to what the window tracks: which messages are
//! taken in, and what is kept of each.

use vstd::prelude::*;
use vstd::std_specs::convert::FromSpecImpl;
use crate::api::MessageNormal;
use crate::errors::SlackChannelError;
use crate::messages::{Message, Reply};
use crate::text::utf8;
use crate::timestamp::seconds_of;

verus! {

/// The list that an optional list stands for: nothing where it is absent.
pub open spec fn listed_or_none(list: Option<Vec<String>>) -> Seq<String> {
    match list {
        Some(l) => l@,
        None => Seq::empty(),
    }
}

/// `m` is what is kept of the API's message `mn`: its text and timestamp,
/// the seconds read from the timestamp, its sender (nobody where the API
/// names none), no channel yet, and a thread exactly where the API reports a
/// latest reply, with those who replied.
pub open spec fn keeps(m: Message, mn: MessageNormal) -> bool {
    &&& m.message == mn.text
    &&& m.received_ts == mn.ts
    &&& m.received_at == seconds_of(utf8(mn.ts@))
    &&& m.channel_id is None
    &&& m.sender@ == match mn.user {
        Some(u) => u@,
        None => Seq::empty(),
    }
    &&& match mn.latest_reply {
        Some(ts) => {
            &&& m.reply matches Some(r)
            &&& r.latest_ts == ts
            &&& r.latest_reply == seconds_of(utf8(ts@))
            &&& r.users@ == listed_or_none(mn.reply_users)
        },
        None => m.reply is None,
    }
}

impl<'a> From<&'a MessageNormal> for Message {
    fn from(mn: &'a MessageNormal) -> (m: Message)
        ensures
            keeps(m, *mn),
            m.derived(),
    {
        let reply: Option<Reply> = match &mn.latest_reply {
            Some(latest_reply) => {
                let users: Vec<String> = match &mn.reply_users {
                    Some(list) => {
                        let copy = list.clone();
                        proof {
                            assert(copy@ =~= list@);
                        }
                        copy
                    },
                    None => Vec::new(),
                };
                Some(
                    Reply {
                        latest_reply: Message::parse_ts(latest_reply.as_str()),
                        latest_ts: latest_reply.clone(),
                        users,
                    },
                )
            },
            None => None,
        };
        let sender: String = match &mn.user {
            Some(user) => user.clone(),
            None => String::new(),
        };
        Message::new(
            mn.text.clone(),
            sender,
            Message::parse_ts(mn.ts.as_str()),
            mn.ts.clone(),
            reply,
        )
    }
}

impl<'a> FromSpecImpl<&'a MessageNormal> for Message {
    open spec fn obeys_from_spec() -> bool {
        false
    }

    open spec fn from_spec(mn: &'a MessageNormal) -> Message {
        arbitrary()
    }
}

/// The messages of a list that are taken in, in the order of the list.
pub open spec fn eligible_of(list: Seq<MessageNormal>) -> Seq<MessageNormal>
    decreases list.len(),
{
    if list.len() == 0 {
        Seq::empty()
    } else if list.last().eligible() {
        eligible_of(list.drop_last()).push(list.last())
    } else {
        eligible_of(list.drop_last())
    }
}

/// Each of `kept` is what is kept of the message of `taken` at its place.
pub open spec fn keep_all(kept: Seq<Message>, taken: Seq<MessageNormal>) -> bool {
    &&& kept.len() == taken.len()
    &&& forall|k: int| 0 <= k < kept.len() ==> keeps(#[trigger] kept[k], taken[k])
}

/// The messages to track out of a page of history: the plain messages with
/// a sender, in the order of the page. No page gives none.
pub fn messages_of_page(page: &Option<Vec<MessageNormal>>) -> (messages: Vec<Message>)
    ensures
        keep_all(
            messages@,
            match *page {
                Some(list) => eligible_of(list@),
                None => Seq::empty(),
            },
        ),
{
    let mut messages: Vec<Message> = Vec::new();
    if let Some(list) = page {
        let mut k: usize = 0;
        proof {
            assert(list@.take(0) =~= Seq::empty());
        }
        while k < list.len()
            invariant
                k <= list@.len(),
                keep_all(messages@, eligible_of(list@.take(k as int))),
            decreases list@.len() - k,
        {
            proof {
                assert(list@.take(k + 1).drop_last() =~= list@.take(k as int));
            }
            if list[k].is_elegible() {
                messages.push(Message::from(&list[k]));
            }
            k += 1;
        }
        proof {
            assert(list@.take(k as int) =~= list@);
        }
    }
    messages
}

/// The first message of a page that is taken in.
pub open spec fn first_eligible(page: Option<Vec<MessageNormal>>) -> Option<MessageNormal> {
    match page {
        Some(list) => if eligible_of(list@).len() > 0 {
            Some(eligible_of(list@)[0])
        } else {
            None
        },
        None => None,
    }
}

/// The head of a thread out of the page that was asked for it: the first
/// plain message with a sender, if the page holds one.
pub fn head_of_page(page: &Option<Vec<MessageNormal>>) -> (head: Option<Message>)
    ensures
        head is Some <==> first_eligible(*page) is Some,
        head matches Some(m) ==> keeps(m, first_eligible(*page)->0),
{
    if let Some(list) = page {
        let mut k: usize = 0;
        proof {
            assert(list@.take(0) =~= Seq::empty());
        }
        while k < list.len()
            invariant
                k <= list@.len(),
                *page == Some(*list),
                eligible_of(list@.take(k as int)).len() == 0,
            decreases list@.len() - k,
        {
            proof {
                assert(list@.take(k + 1).drop_last() =~= list@.take(k as int));
            }
            if list[k].is_elegible() {
                proof {
                    lemma_eligible_first(list@, k as int);
                }
                return Some(Message::from(&list[k]));
            }
            k += 1;
        }
        proof {
            assert(list@.take(k as int) =~= list@);
        }
    }
    None
}

/// The thread that a lookup found: that of the head, where the lookup gave
/// one. A lookup that failed and one that found no message give none.
pub open spec fn thread_found(outcome: Result<Option<Message>, SlackChannelError>) -> Option<
    Reply,
> {
    match outcome {
        Ok(Some(head)) => head.reply,
        _ => None,
    }
}

/// The present state of a thread out of what the lookup of its head gave.
pub fn refresh(outcome: Result<Option<Message>, SlackChannelError>) -> (thread: Option<Reply>)
    ensures
        thread == thread_found(outcome),
{
    match outcome {
        Ok(Some(head)) => head.reply,
        _ => None,
    }
}

/// Where the first eligible message stands at `k`, it is the first of those
/// taken in.
pub proof fn lemma_eligible_first(list: Seq<MessageNormal>, k: int)
    requires
        0 <= k < list.len(),
        list[k].eligible(),
        eligible_of(list.take(k)).len() == 0,
    ensures
        eligible_of(list).len() > 0,
        eligible_of(list)[0] == list[k],
    decreases list.len(),
{
    let front = list.drop_last();
    if k == list.len() - 1 {
        assert(front =~= list.take(k));
    } else {
        assert(front.take(k) =~= list.take(k));
        lemma_eligible_first(front, k);
    }
}

} // verus!
