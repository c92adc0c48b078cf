//! What the library reads of a request.

use vstd::prelude::*;

verus! {

/// The headers that decisions depend on. A header is present where the request carries it as
/// visible ASCII text.
#[derive(Debug, Clone)]
pub struct Headers {
    pub authorization: Option<String>,
    pub cookie: Option<String>,
    pub forwarded_for: Option<String>,
    pub hub_signature: Option<String>,
    pub github_event: Option<String>,
}

/// The path of a request and what follows the question mark, both as they were sent.
#[derive(Debug, Clone)]
pub struct Target {
    pub path: String,
    pub query: Option<String>,
}

} // verus!
