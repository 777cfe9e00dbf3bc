use vstd::prelude::*;

use crate::json::JsonValue;

verus! {

/// A request addressed to a user, with an optional key and payload.
#[derive(Debug, PartialEq)]
pub struct Request {
    pub user_id: String,
    pub key: Option<String>,
    pub data: Option<JsonValue>,
}

} // verus!
