//! Requests on direct-message conversations.

use vstd::prelude::*;
use crate::id::DmId;
use crate::timestamp::Timestamp;

verus! {

/// Marks how far a direct-message conversation has been read.
#[derive(Clone, Debug)]
pub struct MarkRequest {
    /// Direct message channel to set reading cursor in.
    pub channel: DmId,
    /// Timestamp of the most recently seen message.
    pub ts: Timestamp,
}

} // verus!
