//! The UNSUBSCRIBE command shape; construction is not yet offered.

use vstd::prelude::*;

verus! {

/// An UNSUBSCRIBE request: the channels to leave.
#[allow(dead_code)]
pub struct Unsubscribe {
    channels: Vec<String>,
}

} // verus!
