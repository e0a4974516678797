//! The SUBSCRIBE command shape; construction is not yet offered.

use vstd::prelude::*;

verus! {

/// A SUBSCRIBE request: the channels to listen on.
#[allow(dead_code)]
pub struct Subscribe {
    channels: Vec<String>,
}

} // verus!
