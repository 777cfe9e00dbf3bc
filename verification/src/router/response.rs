//! Successful responses.
use vstd::prelude::*;

use crate::json::JsonValue;
use crate::router::error::{axum_status, axum_status_from_u16, warp_status, warp_status_from_u16};

verus! {

#[derive(Debug, Clone, Copy, PartialEq, Eq, Structural)]
pub enum SuccessCode {
    OK,
    Created,
    Accepted,
    NoContent,
}

impl SuccessCode {
    /// The HTTP status number of a success code.
    pub open spec fn status_number(self) -> u16 {
        match self {
            SuccessCode::OK => 200,
            SuccessCode::Created => 201,
            SuccessCode::Accepted => 202,
            SuccessCode::NoContent => 204,
        }
    }

    /// The HTTP status number of this success code.
    pub fn code(&self) -> (r: u16)
        ensures
            r == self.status_number(),
    {
        match self {
            SuccessCode::OK => 200,
            SuccessCode::Created => 201,
            SuccessCode::Accepted => 202,
            SuccessCode::NoContent => 204,
        }
    }

    pub fn to_warp_status_code(&self) -> (s: warp::http::StatusCode)
        ensures
            s == warp_status(self.status_number()),
    {
        warp_status_from_u16(self.code())
    }

    pub fn to_axum_status_code(&self) -> (s: http::StatusCode)
        ensures
            s == axum_status(self.status_number()),
    {
        axum_status_from_u16(self.code())
    }
}

#[derive(Debug)]
pub struct SuccessResponse {
    pub success: bool,
    pub status: SuccessCode,
    pub msg: Option<String>,
    pub data: Option<JsonValue>,
}

impl SuccessResponse {
    /// A successful response: `OK` unless another code is given.
    pub fn new(status: Option<SuccessCode>, msg: Option<String>, data: Option<JsonValue>) -> (r: Self)
        ensures
            r.success,
            r.status == match status {
                Some(s) => s,
                None => SuccessCode::OK,
            },
            r.msg == msg,
            r.data == data,
    {
        let status = match status {
            Some(s) => s,
            None => SuccessCode::OK,
        };
        SuccessResponse { success: true, status, msg, data }
    }
}

/// The answer to a socket request, sent on its response channel.
#[derive(Debug)]
pub struct SocketResponse {
    pub success: bool,
    pub msg: Option<String>,
    pub data: Option<JsonValue>,
    pub response_channel: String,
}

impl SocketResponse {
    pub fn success(msg: Option<String>, data: Option<JsonValue>, response_channel: String) -> (r:
        Self)
        ensures
            r.success,
            r.msg == msg,
            r.data == data,
            r.response_channel == response_channel,
    {
        SocketResponse { success: true, msg, data, response_channel }
    }

    pub fn failure(msg: Option<String>, data: Option<JsonValue>, response_channel: String) -> (r:
        Self)
        ensures
            !r.success,
            r.msg == msg,
            r.data == data,
            r.response_channel == response_channel,
    {
        SocketResponse { success: false, msg, data, response_channel }
    }
}

/// Each success code stands for the HTTP status its name denotes, and
/// distinct codes for distinct statuses.
pub proof fn lemma_success_codes_are_their_http_statuses(a: SuccessCode, b: SuccessCode)
    ensures
        SuccessCode::OK.status_number() == 200,
        SuccessCode::Created.status_number() == 201,
        SuccessCode::Accepted.status_number() == 202,
        SuccessCode::NoContent.status_number() == 204,
        a != b ==> a.status_number() != b.status_number(),
{
}

} // verus!
