//! Records of the remote chat API, field for field as it sends them.

use vstd::prelude::*;
use crate::text::{compare, Order};

verus! {

/// Answer to a request for the channel catalog.
#[derive(Debug, Clone, PartialEq)]
pub struct ChannelResponse {
    pub ok: bool,
    pub channels: Option<Vec<ConversationChannel>>,
    pub error: Option<String>,
    pub needed: Option<String>,
    pub provided: Option<String>,
    pub response_metadata: Option<PaginationMetadata>,
}

/// A channel-like conversation in a workspace.
#[derive(Debug, Clone, PartialEq)]
pub struct ConversationChannel {
    pub id: String,
    pub name: String,
    pub is_channel: bool,
    pub is_group: bool,
    pub is_im: bool,
    pub is_mpim: bool,
    pub is_private: bool,
    pub created: usize,
    pub is_archived: bool,
    pub is_general: bool,
    pub unlinked: usize,
    pub name_normalized: String,
    pub is_shared: bool,
    pub is_org_shared: bool,
    pub is_pending_ext_shared: bool,
    pub pending_shared: Vec<String>,
    pub context_team_id: String,
    pub updated: usize,
    pub parent_conversation: Option<String>,
    pub creator: String,
    pub is_ext_shared: bool,
    pub shared_team_ids: Option<Vec<String>>,
    pub pending_connected_team_ids: Vec<String>,
    pub is_member: bool,
    pub topic: Topic,
    pub purpose: Topic,
    pub previous_names: Vec<String>,
    pub num_members: usize,
}

impl ConversationChannel {
    /// A channel is polled when the account is a member of it and it is not
    /// archived.
    pub fn is_elegible(&self) -> (eligible: bool)
        ensures
            eligible == (self.is_member && !self.is_archived),
    {
        self.is_member && !self.is_archived
    }
}

#[derive(Debug, Clone, PartialEq)]
pub struct Topic {
    pub value: String,
    pub creator: String,
    pub last_set: usize,
}

#[derive(Debug, Clone, PartialEq)]
pub struct PaginationMetadata {
    pub next_cursor: String,
}

/// The notice that someone joined a channel.
#[derive(Debug, Clone, PartialEq)]
pub struct MessageJoin {
    pub subtype: String,
    pub user: String,
    pub text: String,
    pub inviter: String,
    pub message_type: String,
    pub ts: String,
}

/// A message as the history of a channel lists it. Where it heads a thread,
/// the summary of the thread comes with it.
#[derive(Debug, Clone, PartialEq)]
pub struct MessageNormal {
    pub user: Option<String>,
    pub message_type: Option<String>,
    pub ts: String,
    pub text: String,
    pub client_msg_id: Option<String>,
    pub subtype: Option<String>,
    pub inviter: Option<String>,
    pub blocks: Option<Vec<BlockInfo>>,
    pub pinned_to: Option<Vec<String>>,
    pub pinned_info: Option<PinnedInfo>,
    pub reactions: Option<Vec<Reactions>>,
    pub reply_count: Option<usize>,
    pub reply_users_count: Option<usize>,
    pub latest_reply: Option<String>,
    pub reply_users: Option<Vec<String>>,
    pub thread_ts: Option<String>,
    pub bot_id: Option<String>,
}

impl MessageNormal {
    /// What counts as a message of a person.
    pub open spec fn eligible(&self) -> bool {
        &&& self.message_type matches Some(kind)
        &&& kind@ == "message"@
        &&& self.user is Some
    }

    /// Only plain messages with a known sender are taken in.
    pub fn is_elegible(&self) -> (eligible: bool)
        ensures
            eligible == self.eligible(),
    {
        match &self.message_type {
            Some(kind) => compare(kind.as_str(), "message") == Order::Same && self.user.is_some(),
            None => false,
        }
    }
}

#[derive(Debug, Clone, PartialEq)]
pub struct BlockInfo {
    pub block_id: String,
}

#[derive(Debug, Clone, PartialEq)]
pub struct PinnedInfo {
    pub channel: String,
    pub pinned_by: String,
    pub pinned_ts: usize,
}

#[derive(Debug, Clone, PartialEq)]
pub struct Reactions {
    pub name: String,
    pub users: Vec<String>,
    pub count: usize,
}

/// Answer to a request for messages.
#[derive(Debug, Clone, PartialEq)]
pub struct MessageResponse {
    pub ok: bool,
    pub messages: Option<Vec<MessageNormal>>,
    pub latest: Option<String>,
    pub oldest: Option<String>,
    pub has_more: Option<bool>,
    pub pin_count: Option<usize>,
    pub channel_actions_count: Option<usize>,
    pub warning: Option<String>,
    pub error: Option<String>,
}

} // verus!
