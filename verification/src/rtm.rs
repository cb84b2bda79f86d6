//! Events of the realtime connection, and the attachments they carry.

use vstd::prelude::*;
use crate::id::{BotId, ChannelId, ConversationId, DmId, GroupId, UserId};
use crate::timestamp::Timestamp;

verus! {

/// One event from the realtime stream.
pub enum Event {
    ChannelMarked { channel: ChannelId, ts: Timestamp },
    GroupMarked { channel: GroupId, ts: Timestamp },
    ImMarked { channel: DmId, ts: Timestamp },
    Message {
        channel: ConversationId,
        text: Option<String>,
        user: Option<UserId>,
        username: Option<String>,
        ts: Timestamp,
        bot_id: Option<BotId>,
        attachments: Vec<Attachment>,
        files: Vec<File>,
    },
    ReactionAdded { item: Reactable, reaction: String },
    ReactionRemoved { item: Reactable, reaction: String },
    Hello {},
    PrefChange {},
    UserTyping {},
}

/// What a reaction can be attached to.
pub enum Reactable {
    Message { channel: ConversationId, ts: Timestamp },
}

/// One reaction and how often it was given.
#[derive(Clone, Debug)]
pub struct Reaction {
    pub name: String,
    pub count: u32,
}

/// A file shared in a message.
#[derive(Clone, Debug)]
pub struct File {
    pub url_private: String,
}

/// Extra content attached to a message.
#[derive(Clone, Debug)]
pub struct Attachment {
    pub pretext: Option<String>,
    pub text: Option<String>,
    pub title: Option<String>,
    pub files: Vec<File>,
}

} // verus!
