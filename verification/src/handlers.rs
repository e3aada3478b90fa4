//! The handler of the protocol's requests.
use vstd::prelude::*;

verus! {

/// Answers the protocol's requests.
pub struct RequestHandler;

impl RequestHandler {
    /// A handler.
    pub fn new() -> (h: Self) {
        RequestHandler
    }
}

impl Default for RequestHandler {
    fn default() -> (h: Self) {
        Self::new()
    }
}

} // verus!
