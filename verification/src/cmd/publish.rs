//! The PUBLISH command shape; construction is not yet offered.

use vstd::prelude::*;

verus! {

/// A PUBLISH request: a channel and a message.
#[allow(dead_code)]
pub struct Publish {
    channel: String,
    message: String,
}

} // verus!
