//! Request routing: the HTTP method of a request, and the error, response
//! and message types that routers produce.
pub mod error;
pub mod error_;
pub mod message;
pub mod request;
pub mod response;

use vstd::prelude::*;

verus! {

#[derive(Debug, Clone, Copy, PartialEq, Eq, Structural)]
pub enum HttpMethod {
    GET,
    POST,
    PUT,
    DELETE,
}

} // verus!
