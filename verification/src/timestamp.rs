//! Message timestamps: the service counts microseconds since the epoch.

use vstd::prelude::*;

verus! {

/// A service timestamp, as microseconds since the epoch.
#[derive(Clone, Copy, Debug, PartialEq, Eq, Structural)]
pub struct Timestamp {
    pub microseconds: u64,
}

} // verus!
