//! What the server reads from a request's head: the client's address and
//! the full path.
use vstd::prelude::*;

use crate::text::{lemma_split_nonempty, split_on, split_str, trim, trim_str};

verus! {

/// The client's IP address, if it is known.
#[derive(Debug, PartialEq, Eq)]
pub struct ClientIp(pub Option<String>);

/// The full path of a request.
#[derive(Debug, PartialEq, Eq)]
pub struct FullPath(pub String);

impl ClientIp {
    /// The client address that an `X-Forwarded-For` header names: its first
    /// comma-separated entry, trimmed.
    pub fn from_forwarded_for(header: &str) -> (r: ClientIp)
        ensures
            r.0 is Some,
            r.0->0@ == trim(split_on(header@, ',')[0]),
    {
        let parts = split_str(header, ',');
        proof {
            lemma_split_nonempty(header@, ',');
            assert(parts@.map_values(|x: String| x@)[0] == parts@[0]@);
        }
        let first = trim_str(parts[0].as_str());
        ClientIp(Some(String::from_str(first)))
    }
}

} // verus!
