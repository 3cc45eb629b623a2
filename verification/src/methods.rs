//! The requests that the poller sends: which method of the chat API serves
//! which purpose, and how the address of each request is written.

use vstd::prelude::*;
use vstd::string::StringExecFns;
use crate::decimal::{append_decimal, decimal};
use crate::errors::QueryError;
use crate::text::{compare, Order};

verus! {

/// Seconds that a request for history looks back.
pub const LOOK_BACK: u64 = 300;

/// Messages asked for in one request for history.
pub const PAGE_LIMIT: u32 = 10;

#[allow(non_camel_case_types)]
pub enum METHOD {
    /// The history of messages and events of a conversation.
    ConversationHistory,
    /// All channels of a team.
    Channels,
    /// A thread of messages posted to a conversation.
    Replies,
}

pub struct ApiMethod {
    /// Name of the method in the API.
    pub action: String,
    /// The HTTP method that it is called with.
    pub method: String,
}

pub fn new_api_method(action: String, method: String) -> (made: ApiMethod)
    ensures
        made.action == action,
        made.method == method,
{
    ApiMethod { action, method }
}

/// Name of the API method for `m`.
pub open spec fn action_of(m: METHOD) -> Seq<char> {
    match m {
        METHOD::ConversationHistory => "conversations.history"@,
        METHOD::Channels => "conversations.list"@,
        METHOD::Replies => "conversations.replies"@,
    }
}

/// The API method that serves `m`. All of them are called with "get".
pub fn get_method(m: METHOD) -> (api: ApiMethod)
    ensures
        api.action@ == action_of(m),
        api.method@ == "get"@,
{
    let get = "get".to_owned();
    match m {
        METHOD::ConversationHistory => new_api_method("conversations.history".to_owned(), get),
        METHOD::Channels => new_api_method("conversations.list".to_owned(), get),
        METHOD::Replies => new_api_method("conversations.replies".to_owned(), get),
    }
}

/// What a request for messages asks for.
#[derive(Debug, Clone)]
pub struct ChatHistoryOptions {
    /// Messages in one page (the API allows up to 100).
    pub limit: u32,
    /// The cursor of the page to go on with.
    pub next_page: Option<String>,
    /// Only messages after this time, in seconds.
    pub messages_since: Option<u64>,
    /// Timestamp of the message that heads the thread asked for.
    pub message_id: Option<String>,
    /// The channel of that thread.
    pub channel_id: Option<String>,
}

/// The characters of an optional string after `label`; nothing where the
/// string is absent.
pub open spec fn labelled(label: Seq<char>, value: Option<String>) -> Seq<char> {
    match value {
        Some(v) => label + v@,
        None => Seq::empty(),
    }
}

impl ChatHistoryOptions {
    /// The query of a request for the history of a channel.
    pub open spec fn query_args(&self) -> Seq<char> {
        "limit="@ + decimal(self.limit as nat) + labelled("&cursor="@, self.next_page)
            + match self.messages_since {
            Some(since) => "&oldest="@ + decimal(since as nat) + ".000200"@,
            None => Seq::empty(),
        }
    }

    /// The query of a request for one thread.
    pub open spec fn query_one_args(&self) -> Seq<char> {
        "limit="@ + decimal(self.limit as nat) + "&inclusive=true"@ + labelled(
            "&channel="@,
            self.channel_id,
        ) + labelled("&oldest="@, self.message_id)
    }

    /// Options for the first page of what was sent in the last five minutes
    /// before `now`, given in seconds; without a lower bound where the time
    /// is not known.
    pub fn recent(now: Option<u64>) -> (options: Self)
        requires
            now matches Some(n) ==> n >= LOOK_BACK,
        ensures
            options.limit == PAGE_LIMIT,
            options.next_page is None,
            options.message_id is None,
            options.channel_id is None,
            options.messages_since == match now {
                Some(n) => Some((n - LOOK_BACK) as u64),
                None => None,
            },
    {
        let messages_since = match now {
            Some(n) => Some(n - LOOK_BACK),
            None => None,
        };
        ChatHistoryOptions {
            limit: PAGE_LIMIT,
            next_page: None,
            messages_since,
            message_id: None,
            channel_id: None,
        }
    }

    pub fn to_query_args(&self) -> (query: String)
        ensures
            query@ == self.query_args(),
    {
        let mut query = "limit=".to_owned();
        append_decimal(&mut query, self.limit as u64);
        if let Some(cursor) = &self.next_page {
            query.append("&cursor=");
            query.append(cursor.as_str());
        }
        if let Some(since) = &self.messages_since {
            query.append("&oldest=");
            append_decimal(&mut query, *since);
            query.append(".000200");
        }
        proof {
            assert(query@ =~= self.query_args());
        }
        query
    }

    pub fn to_query_one_args(&self) -> (query: String)
        ensures
            query@ == self.query_one_args(),
    {
        let mut query = "limit=".to_owned();
        append_decimal(&mut query, self.limit as u64);
        query.append("&inclusive=true");
        if let Some(channel) = &self.channel_id {
            query.append("&channel=");
            query.append(channel.as_str());
        }
        if let Some(message) = &self.message_id {
            query.append("&oldest=");
            query.append(message.as_str());
        }
        proof {
            assert(query@ =~= self.query_one_args());
        }
        query
    }

    /// Asks for a single message.
    pub fn only_one(&mut self)
        ensures
            *final(self) == (ChatHistoryOptions { limit: 1, ..*old(self) }),
    {
        self.limit = 1;
    }

    /// Asks for the thread that the message `message_id` of the channel
    /// `channel_id` heads.
    pub fn set_message_thread(&mut self, channel_id: &str, message_id: &str)
        ensures
            final(self).channel_id matches Some(c) && c@ == channel_id@,
            final(self).message_id matches Some(m) && m@ == message_id@,
            final(self).limit == old(self).limit,
            final(self).next_page == old(self).next_page,
            final(self).messages_since == old(self).messages_since,
    {
        self.channel_id = Some(channel_id.to_owned());
        self.message_id = Some(message_id.to_owned());
    }

    /// Options that ask for the head of one thread: the one message at
    /// `message_id` in the channel `channel_id`.
    pub fn thread_head(now: Option<u64>, channel_id: &str, message_id: &str) -> (options: Self)
        requires
            now matches Some(n) ==> n >= LOOK_BACK,
        ensures
            options.limit == 1,
            options.next_page is None,
            options.channel_id matches Some(c) && c@ == channel_id@,
            options.message_id matches Some(m) && m@ == message_id@,
            options.messages_since == match now {
                Some(n) => Some((n - LOOK_BACK) as u64),
                None => None,
            },
    {
        let mut options = ChatHistoryOptions::recent(now);
        options.set_message_thread(channel_id, message_id);
        options.only_one();
        options
    }
}

/// Where the API is.
pub open spec fn api_root() -> Seq<char> {
    "https://slack.com/api/"@
}

/// Address of a request for the channel catalog, from the page that the
/// cursor `paginate` points at.
pub open spec fn channels_address(paginate: Option<&str>) -> Seq<char> {
    api_root() + "conversations.list"@ + "?exclude_archived=true"@ + match paginate {
        Some(cursor) => "&cursor="@ + cursor@,
        None => Seq::empty(),
    }
}

/// Address of a request for the history of the channel `chat_id`.
pub open spec fn history_address(chat_id: &str, args: Option<ChatHistoryOptions>) -> Seq<char> {
    api_root() + "conversations.history"@ + match args {
        Some(options) => "?channel="@ + chat_id@ + "&"@ + options.query_args(),
        None => Seq::empty(),
    }
}

/// Address of a request for one thread.
pub open spec fn reply_address(options: ChatHistoryOptions) -> Seq<char> {
    api_root() + "conversations.history"@ + "?"@ + options.query_one_args()
}

/// The address to ask for the channel catalog. The catalog is only ever
/// read, so the request goes out with "get".
pub fn channels_url(paginate: Option<&str>) -> (url: Result<String, QueryError>)
    ensures
        url matches Ok(address) && address@ == channels_address(paginate),
{
    let slack_method = get_method(METHOD::Channels);
    if compare(slack_method.method.as_str(), "get") != Order::Same {
        return Err(QueryError::new("Slack action method, should be GET"));
    }
    let mut url = "https://slack.com/api/".to_owned();
    url.append(slack_method.action.as_str());
    url.append("?exclude_archived=true");
    if let Some(cursor) = paginate {
        url.append("&cursor=");
        url.append(cursor);
    }
    proof {
        assert(url@ =~= channels_address(paginate));
    }
    Ok(url)
}

/// The address to ask for the history of the channel `chat_id`.
pub fn history_url(chat_id: &str, args: &Option<ChatHistoryOptions>) -> (url: Result<
    String,
    QueryError,
>)
    ensures
        url matches Ok(address) && address@ == history_address(chat_id, *args),
{
    let slack_method = get_method(METHOD::ConversationHistory);
    proof {
        reveal_strlit("conversations.history");
        reveal_strlit("post");
    }
    if compare(slack_method.action.as_str(), "post") == Order::Same {
        return Err(QueryError::new("Slack action method, should be POST"));
    }
    let mut url = "https://slack.com/api/".to_owned();
    url.append(slack_method.action.as_str());
    if let Some(options) = args {
        url.append("?channel=");
        url.append(chat_id);
        url.append("&");
        let query = options.to_query_args();
        url.append(query.as_str());
    }
    proof {
        assert(url@ =~= history_address(chat_id, *args));
    }
    Ok(url)
}

/// The address to ask for one thread.
pub fn reply_url(options: &ChatHistoryOptions) -> (url: String)
    ensures
        url@ == reply_address(*options),
{
    let mut url = "https://slack.com/api/".to_owned();
    url.append("conversations.history");
    url.append("?");
    let query = options.to_query_one_args();
    url.append(query.as_str());
    proof {
        assert(url@ =~= reply_address(*options));
    }
    url
}

/// What the requests declare as their content.
pub fn content_type() -> (value: &'static str)
    ensures
        value@ == "application/json; charset=utf-8"@,
{
    "application/json; charset=utf-8"
}

/// The value of the header that authorizes a request with `token`.
pub fn authorization(token: &str) -> (value: String)
    ensures
        value@ == "Bearer "@ + token@,
{
    let mut value = "Bearer ".to_owned();
    value.append(token);
    value
}

} // verus!
