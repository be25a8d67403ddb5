//! An HTTP request, as the firmware hands it to its client.

use vstd::prelude::*;

verus! {

/// What is asked of the server.
#[derive(Clone, Copy, Debug, PartialEq, Eq, Structural)]
pub enum Verb {
    Get,
    Post,
}

/// One request.
pub struct Request {
    pub method: Verb,
    pub url: String,
    pub headers: [(&'static str, String); 2],
    /// The text that is sent along, if any.
    pub body: Option<String>,
}

} // verus!
