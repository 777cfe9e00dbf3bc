//! Errors with a code and an optional message, and the standard description
//! of each code.
use vstd::prelude::*;

use crate::router::error::{warp_status, warp_status_from_u16};

verus! {

#[derive(Debug, Clone, Copy, PartialEq, Eq, Structural)]
pub enum ErrorCode {
    BadRequest,
    Unauthorized,
    Forbidden,
    NotFound,
    MethodNotAllowed,
    RequestTimeout,
    TooManyRequests,
    InternalServerError,
    BadGateway,
    ServiceUnavailable,
    GatewayTimeout,
}

impl ErrorCode {
    /// The HTTP status number of an error code.
    pub open spec fn status_number(self) -> u16 {
        match self {
            ErrorCode::BadRequest => 400,
            ErrorCode::Unauthorized => 401,
            ErrorCode::Forbidden => 403,
            ErrorCode::NotFound => 404,
            ErrorCode::MethodNotAllowed => 405,
            ErrorCode::RequestTimeout => 408,
            ErrorCode::TooManyRequests => 429,
            ErrorCode::InternalServerError => 500,
            ErrorCode::BadGateway => 502,
            ErrorCode::ServiceUnavailable => 503,
            ErrorCode::GatewayTimeout => 504,
        }
    }

    pub open spec fn description_text(self) -> Seq<char> {
        match self {
            ErrorCode::BadRequest => "Bad Request: The server cannot or will not process the request due to something that is perceived to be a client error."@,
            ErrorCode::Unauthorized => "Unauthorized: Authentication is required and has failed or has not yet been provided."@,
            ErrorCode::Forbidden => "Forbidden: The server understood the request but refuses to authorize it."@,
            ErrorCode::NotFound => "Not Found: The requested resource could not be found but may be available in the future."@,
            ErrorCode::MethodNotAllowed => "Method Not Allowed: A request method is not supported for the requested resource."@,
            ErrorCode::RequestTimeout => "Request Timeout: The server timed out waiting for the request."@,
            ErrorCode::TooManyRequests => "Too Many Requests: The user has sent too many requests in a given amount of time."@,
            ErrorCode::InternalServerError => "Internal Server Error: A generic error message, given when no more specific message is suitable."@,
            ErrorCode::BadGateway => "Bad Gateway: The server was acting as a gateway or proxy and received an invalid response from the upstream server."@,
            ErrorCode::ServiceUnavailable => "Service Unavailable: The server is currently unable to handle the request due to a temporary overload or scheduled maintenance."@,
            ErrorCode::GatewayTimeout => "Gateway Timeout: The server was acting as a gateway or proxy and did not receive a timely response from the upstream server."@,
        }
    }

    /// The standard description of this error code.
    pub fn description(&self) -> (r: &'static str)
        ensures
            r@ == self.description_text(),
    {
        match self {
            ErrorCode::BadRequest => "Bad Request: The server cannot or will not process the request due to something that is perceived to be a client error.",
            ErrorCode::Unauthorized => "Unauthorized: Authentication is required and has failed or has not yet been provided.",
            ErrorCode::Forbidden => "Forbidden: The server understood the request but refuses to authorize it.",
            ErrorCode::NotFound => "Not Found: The requested resource could not be found but may be available in the future.",
            ErrorCode::MethodNotAllowed => "Method Not Allowed: A request method is not supported for the requested resource.",
            ErrorCode::RequestTimeout => "Request Timeout: The server timed out waiting for the request.",
            ErrorCode::TooManyRequests => "Too Many Requests: The user has sent too many requests in a given amount of time.",
            ErrorCode::InternalServerError => "Internal Server Error: A generic error message, given when no more specific message is suitable.",
            ErrorCode::BadGateway => "Bad Gateway: The server was acting as a gateway or proxy and received an invalid response from the upstream server.",
            ErrorCode::ServiceUnavailable => "Service Unavailable: The server is currently unable to handle the request due to a temporary overload or scheduled maintenance.",
            ErrorCode::GatewayTimeout => "Gateway Timeout: The server was acting as a gateway or proxy and did not receive a timely response from the upstream server.",
        }
    }

    /// The HTTP status number of this error code.
    pub fn code(&self) -> (r: u16)
        ensures
            r == self.status_number(),
    {
        match self {
            ErrorCode::BadRequest => 400,
            ErrorCode::Unauthorized => 401,
            ErrorCode::Forbidden => 403,
            ErrorCode::NotFound => 404,
            ErrorCode::MethodNotAllowed => 405,
            ErrorCode::RequestTimeout => 408,
            ErrorCode::TooManyRequests => 429,
            ErrorCode::InternalServerError => 500,
            ErrorCode::BadGateway => 502,
            ErrorCode::ServiceUnavailable => 503,
            ErrorCode::GatewayTimeout => 504,
        }
    }
}

#[derive(Debug, PartialEq, Eq)]
pub struct Error {
    pub code: ErrorCode,
    pub message: Option<String>,
}

impl Error {
    pub fn new(code: ErrorCode, message: Option<String>) -> (r: Self)
        ensures
            r.code == code,
            r.message == message,
    {
        Error { code, message }
    }

    /// An error of the given code, described by the code's description.
    pub fn from_code(code: ErrorCode) -> (r: Self)
        ensures
            r.code == code,
            r.message is Some,
            r.message->0@ == code.description_text(),
    {
        Error { code, message: Some(String::from_str(code.description())) }
    }

    /// An internal server error with its standard description.
    pub fn default() -> (r: Self)
        ensures
            r.code == ErrorCode::InternalServerError,
            r.message is Some,
            r.message->0@ == ErrorCode::InternalServerError.description_text(),
    {
        Self::from_code(ErrorCode::InternalServerError)
    }

    /// An internal server error carrying the text of `e` (an
    /// `anyhow::Error`, or any other error that displays).
    pub fn from_anyhow<E: core::fmt::Display>(e: E) -> (r: Self)
        ensures
            r.code == ErrorCode::InternalServerError,
            r.message is Some,
            vstd::string::to_string_from_display_ensures::<E>(&e, r.message->0),
    {
        Error { code: ErrorCode::InternalServerError, message: Some(e.to_string()) }
    }

    pub fn to_warp_status_code(&self) -> (s: warp::http::StatusCode)
        ensures
            s == warp_status(self.code.status_number()),
    {
        warp_status_from_u16(self.code.code())
    }
}

/// Each error code stands for the HTTP status its name denotes, and
/// distinct codes for distinct statuses.
pub proof fn lemma_error_codes_are_their_http_statuses(a: ErrorCode, b: ErrorCode)
    ensures
        a != b ==> a.status_number() != b.status_number(),
        ErrorCode::BadRequest.status_number() == 400,
        ErrorCode::Unauthorized.status_number() == 401,
        ErrorCode::Forbidden.status_number() == 403,
        ErrorCode::NotFound.status_number() == 404,
        ErrorCode::MethodNotAllowed.status_number() == 405,
        ErrorCode::RequestTimeout.status_number() == 408,
        ErrorCode::TooManyRequests.status_number() == 429,
        ErrorCode::InternalServerError.status_number() == 500,
        ErrorCode::BadGateway.status_number() == 502,
        ErrorCode::ServiceUnavailable.status_number() == 503,
        ErrorCode::GatewayTimeout.status_number() == 504,
{
}

} // verus!
