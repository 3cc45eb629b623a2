//! Channels as the poller keeps them, and as the cache file stores them.

use vstd::prelude::*;
use vstd::std_specs::convert::FromSpecImpl;
use crate::api::ConversationChannel;

verus! {

/// A channel that is polled.
#[derive(Debug, Clone)]
pub struct Channel {
    /// Name, with "-" for spaces.
    pub name: String,
    /// Identifier; starts with "C".
    pub channel_id: String,
    /// Left out when messages are fetched.
    pub should_skip: bool,
}

/// A line of the channel cache.
#[derive(Debug, Clone)]
pub struct ChannelStorage {
    pub channel_id: String,
    pub name: String,
    /// Entered by hand.
    pub custom: bool,
    /// Left out when messages are fetched.
    pub ignore: bool,
}

impl Channel {
    pub fn new(name: String, channel_id: String, should_skip: bool) -> (channel: Channel)
        ensures
            channel == (Channel { name, channel_id, should_skip }),
    {
        Channel { name, channel_id, should_skip }
    }

    /// The cache line that stores this channel.
    pub open spec fn stored(&self) -> ChannelStorage {
        ChannelStorage {
            channel_id: self.channel_id,
            name: self.name,
            custom: false,
            ignore: false,
        }
    }

    /// The cache line that stores this channel.
    pub fn to_storage(&self) -> (line: ChannelStorage)
        ensures
            line == self.stored(),
    {
        ChannelStorage {
            channel_id: self.channel_id.clone(),
            name: self.name.clone(),
            custom: false,
            ignore: false,
        }
    }
}

impl<'a> From<&'a ConversationChannel> for Channel {
    fn from(cc: &'a ConversationChannel) -> (channel: Channel) {
        Channel::new(cc.name.clone(), cc.id.clone(), false)
    }
}

impl<'a> FromSpecImpl<&'a ConversationChannel> for Channel {
    open spec fn obeys_from_spec() -> bool {
        true
    }

    open spec fn from_spec(cc: &'a ConversationChannel) -> Channel {
        Channel { name: cc.name, channel_id: cc.id, should_skip: false }
    }
}

impl<'a> From<&'a ChannelStorage> for Channel {
    fn from(cs: &'a ChannelStorage) -> (channel: Channel) {
        Channel::new(cs.name.clone(), cs.channel_id.clone(), cs.ignore)
    }
}

impl<'a> FromSpecImpl<&'a ChannelStorage> for Channel {
    open spec fn obeys_from_spec() -> bool {
        true
    }

    open spec fn from_spec(cs: &'a ChannelStorage) -> Channel {
        Channel { name: cs.name, channel_id: cs.channel_id, should_skip: cs.ignore }
    }
}

/// The channels of a catalog that are polled, in the order of the catalog.
pub open spec fn eligible_channels(catalog: Seq<ConversationChannel>) -> Seq<Channel>
    decreases catalog.len(),
{
    if catalog.len() == 0 {
        Seq::empty()
    } else {
        let last = catalog.last();
        let before = eligible_channels(catalog.drop_last());
        if last.is_member && !last.is_archived {
            before.push(Channel { name: last.name, channel_id: last.id, should_skip: false })
        } else {
            before
        }
    }
}

/// The channels to poll out of what the API lists: those the account is a
/// member of and that are not archived. No list gives no channel.
pub fn channels_of_catalog(catalog: &Option<Vec<ConversationChannel>>) -> (channels: Vec<Channel>)
    ensures
        channels@ == match *catalog {
            Some(list) => eligible_channels(list@),
            None => Seq::empty(),
        },
{
    let mut channels: Vec<Channel> = Vec::new();
    if let Some(list) = catalog {
        let mut k: usize = 0;
        proof {
            assert(list@.take(0) =~= Seq::empty());
        }
        while k < list.len()
            invariant
                k <= list@.len(),
                channels@ == eligible_channels(list@.take(k as int)),
            decreases list@.len() - k,
        {
            proof {
                assert(list@.take(k + 1).drop_last() =~= list@.take(k as int));
            }
            if list[k].is_elegible() {
                channels.push(Channel::from(&list[k]));
            }
            k += 1;
        }
        proof {
            assert(list@.take(k as int) =~= list@);
        }
    }
    channels
}

/// What follows from the answer to a request for the catalog: the channels
/// to poll, and the lines to write to the cache. An answer without a list
/// of channels gives no channel and nothing to write.
pub fn catalog_outcome(catalog: &Option<Vec<ConversationChannel>>) -> (out: (
    Vec<Channel>,
    Option<Vec<ChannelStorage>>,
))
    ensures
        out.0@ == match *catalog {
            Some(list) => eligible_channels(list@),
            None => Seq::empty(),
        },
        out.1 is Some <==> *catalog is Some,
        out.1 matches Some(lines) ==> lines@.len() == out.0@.len() && forall|k: int|
            0 <= k < lines@.len() ==> #[trigger] lines@[k] == out.0@[k].stored(),
{
    let channels = channels_of_catalog(catalog);
    let lines = match catalog {
        Some(_) => Some(cache_of_channels(&channels)),
        None => None,
    };
    (channels, lines)
}

/// The channels that a cache holds, line by line.
pub fn channels_of_cache(cached: &Vec<ChannelStorage>) -> (channels: Vec<Channel>)
    ensures
        channels@.len() == cached@.len(),
        forall|k: int|
            0 <= k < cached@.len() ==> #[trigger] channels@[k] == (Channel {
                name: cached@[k].name,
                channel_id: cached@[k].channel_id,
                should_skip: cached@[k].ignore,
            }),
{
    let mut channels: Vec<Channel> = Vec::new();
    let mut k: usize = 0;
    while k < cached.len()
        invariant
            k <= cached@.len(),
            channels@.len() == k,
            forall|i: int|
                0 <= i < k ==> #[trigger] channels@[i] == (Channel {
                    name: cached@[i].name,
                    channel_id: cached@[i].channel_id,
                    should_skip: cached@[i].ignore,
                }),
        decreases cached@.len() - k,
    {
        channels.push(Channel::from(&cached[k]));
        k += 1;
    }
    channels
}

/// The cache lines that store a list of channels.
pub fn cache_of_channels(channels: &Vec<Channel>) -> (lines: Vec<ChannelStorage>)
    ensures
        lines@.len() == channels@.len(),
        forall|k: int| 0 <= k < channels@.len() ==> #[trigger] lines@[k] == channels@[k].stored(),
{
    let mut lines: Vec<ChannelStorage> = Vec::new();
    let mut k: usize = 0;
    while k < channels.len()
        invariant
            k <= channels@.len(),
            lines@.len() == k,
            forall|i: int| 0 <= i < k ==> #[trigger] lines@[i] == channels@[i].stored(),
        decreases channels@.len() - k,
    {
        lines.push(channels[k].to_storage());
        k += 1;
    }
    lines
}

} // verus!
