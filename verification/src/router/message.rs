//! Messages pushed to connections.
use vstd::prelude::*;

use crate::json::JsonValue;

verus! {

#[derive(Debug, PartialEq)]
pub struct Message {
    pub channel: String,
    pub instruction: String,
    pub data: Option<JsonValue>,
}

#[derive(Debug)]
pub struct UserMessage {
    pub data_type: Option<String>,
    pub data: Option<JsonValue>,
    pub user_id: String,
}

#[derive(Debug)]
pub struct UserSocketMessage {
    pub receiver_id: String,
    pub message: Message,
}

#[derive(Debug)]
pub struct SocketMessage {
    pub channel: String,
    pub instruction: Option<String>,
    pub data: Option<JsonValue>,
    pub response_channel: Option<String>,
}

impl Message {
    pub fn new(channel: &str, instruction: &str, data: Option<JsonValue>) -> (r: Self)
        ensures
            r.channel@ == channel@,
            r.instruction@ == instruction@,
            r.data == data,
    {
        Message { channel: String::from_str(channel), instruction: String::from_str(instruction), data }
    }
}

} // verus!
