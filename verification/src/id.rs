//! Identifiers the chat service hands out: opaque strings, one newtype per
//! kind so they cannot be mixed up.

use vstd::prelude::*;

verus! {

#[derive(Clone, Debug, PartialEq, Eq, Hash)]
pub struct AppId(pub String);

#[derive(Clone, Debug, PartialEq, Eq, Hash)]
pub struct BotId(pub String);

#[derive(Clone, Debug, PartialEq, Eq, Hash)]
pub struct ChannelId(pub String);

#[derive(Clone, Debug, PartialEq, Eq, Hash)]
pub struct ConversationId(pub String);

#[derive(Clone, Debug, PartialEq, Eq, Hash)]
pub struct DmId(pub String);

#[derive(Clone, Debug, PartialEq, Eq, Hash)]
pub struct GroupId(pub String);

#[derive(Clone, Debug, PartialEq, Eq, Hash)]
pub struct UserId(pub String);

} // verus!
