//! Error responses and their HTTP status codes.
use vstd::prelude::*;

verus! {

#[verifier::external_type_specification]
#[verifier::external_body]
pub struct ExWarpStatusCode(warp::http::StatusCode);

#[verifier::external_type_specification]
#[verifier::external_body]
pub struct ExHttpStatusCode(http::StatusCode);

/// The `warp::http::StatusCode` (of the `http` 0.2 crate) with the number `code`.
pub uninterp spec fn warp_status(code: u16) -> warp::http::StatusCode;

/// The `http::StatusCode` (of the `http` 1 crate, which axum uses) with the number `code`.
pub uninterp spec fn axum_status(code: u16) -> http::StatusCode;

/// `warp::http::StatusCode::from_u16`, which accepts the numbers 100 to 999.
/// The status made of a number holds that number and no other.
#[verifier::external_body]
pub(crate) fn warp_status_from_u16(code: u16) -> (s: warp::http::StatusCode)
    requires
        100 <= code <= 999,
    ensures
        s == warp_status(code),
        forall|m: u16| 100 <= m <= 999 && warp_status(m) == s ==> m == code,
{
    warp::http::StatusCode::from_u16(code).unwrap()
}

/// `warp::http::StatusCode::as_u16`: the number of a status, which is one of
/// 100 to 999 since `from_u16` makes no other; the status is the one that
/// number gives, and no other number gives it.
#[verifier::external_body]
pub(crate) fn warp_status_as_u16(status: &warp::http::StatusCode) -> (code: u16)
    ensures
        100 <= code <= 999,
        *status == warp_status(code),
        forall|m: u16| 100 <= m <= 999 && warp_status(m) == *status ==> m == code,
{
    status.as_u16()
}

/// `http::StatusCode::from_u16`, which accepts the numbers 100 to 999.
#[verifier::external_body]
pub(crate) fn axum_status_from_u16(code: u16) -> (s: http::StatusCode)
    requires
        100 <= code <= 999,
    ensures
        s == axum_status(code),
{
    http::StatusCode::from_u16(code).unwrap()
}

#[derive(Debug, Clone, Copy, PartialEq, Eq, Structural)]
pub enum ErrorCode {
    BadRequest,
    Unauthorized,
    Forbidden,
    NotFound,
    UnprocessableEntity,
    MethodNotAllowed,
    RequestTimeout,
    TooManyRequests,
    InternalServerError,
    BadGateway,
    ServiceUnavailable,
    GatewayTimeout,
}

impl ErrorCode {
    /// The HTTP status number of an error code.
    pub open spec fn status_number(self) -> u16 {
        match self {
            ErrorCode::BadRequest => 400,
            ErrorCode::Unauthorized => 401,
            ErrorCode::Forbidden => 403,
            ErrorCode::NotFound => 404,
            ErrorCode::UnprocessableEntity => 422,
            ErrorCode::MethodNotAllowed => 405,
            ErrorCode::RequestTimeout => 408,
            ErrorCode::TooManyRequests => 429,
            ErrorCode::InternalServerError => 500,
            ErrorCode::BadGateway => 502,
            ErrorCode::ServiceUnavailable => 503,
            ErrorCode::GatewayTimeout => 504,
        }
    }

    /// The error code of an HTTP status, as `from_status` reads it: each
    /// status number of an error code gives that code, any other number
    /// gives `InternalServerError`.
    pub open spec fn for_status(code: u16) -> ErrorCode {
        if code == 400 {
            ErrorCode::BadRequest
        } else if code == 401 {
            ErrorCode::Unauthorized
        } else if code == 403 {
            ErrorCode::Forbidden
        } else if code == 404 {
            ErrorCode::NotFound
        } else if code == 422 {
            ErrorCode::UnprocessableEntity
        } else if code == 405 {
            ErrorCode::MethodNotAllowed
        } else if code == 408 {
            ErrorCode::RequestTimeout
        } else if code == 429 {
            ErrorCode::TooManyRequests
        } else if code == 502 {
            ErrorCode::BadGateway
        } else if code == 503 {
            ErrorCode::ServiceUnavailable
        } else if code == 504 {
            ErrorCode::GatewayTimeout
        } else {
            ErrorCode::InternalServerError
        }
    }

    /// The error code of a number, as `from_u16` reads it: as `for_status`,
    /// except that 504 gives `InternalServerError`.
    pub open spec fn for_number(code: u16) -> ErrorCode {
        if code == 504 {
            ErrorCode::InternalServerError
        } else {
            ErrorCode::for_status(code)
        }
    }

    /// The HTTP status number of this error code.
    pub fn code(&self) -> (r: u16)
        ensures
            r == self.status_number(),
    {
        match self {
            ErrorCode::BadRequest => 400,
            ErrorCode::Unauthorized => 401,
            ErrorCode::Forbidden => 403,
            ErrorCode::NotFound => 404,
            ErrorCode::UnprocessableEntity => 422,
            ErrorCode::MethodNotAllowed => 405,
            ErrorCode::RequestTimeout => 408,
            ErrorCode::TooManyRequests => 429,
            ErrorCode::InternalServerError => 500,
            ErrorCode::BadGateway => 502,
            ErrorCode::ServiceUnavailable => 503,
            ErrorCode::GatewayTimeout => 504,
        }
    }

    pub fn to_warp_status_code(&self) -> (s: warp::http::StatusCode)
        ensures
            s == warp_status(self.status_number()),
    {
        warp_status_from_u16(self.code())
    }

    pub fn to_axum_status_code(&self) -> (s: http::StatusCode)
        ensures
            s == axum_status(self.status_number()),
    {
        axum_status_from_u16(self.code())
    }

    /// The error code of an HTTP status number (see `for_status`).
    pub fn from_status_code(code: u16) -> (r: Self)
        ensures
            r == Self::for_status(code),
    {
        if code == 400 {
            ErrorCode::BadRequest
        } else if code == 401 {
            ErrorCode::Unauthorized
        } else if code == 403 {
            ErrorCode::Forbidden
        } else if code == 404 {
            ErrorCode::NotFound
        } else if code == 422 {
            ErrorCode::UnprocessableEntity
        } else if code == 405 {
            ErrorCode::MethodNotAllowed
        } else if code == 408 {
            ErrorCode::RequestTimeout
        } else if code == 429 {
            ErrorCode::TooManyRequests
        } else if code == 502 {
            ErrorCode::BadGateway
        } else if code == 503 {
            ErrorCode::ServiceUnavailable
        } else if code == 504 {
            ErrorCode::GatewayTimeout
        } else {
            ErrorCode::InternalServerError
        }
    }

    /// The error code of a warp status.
    pub fn from_status(status: warp::http::StatusCode) -> (r: Self)
        ensures
            exists|n: u16|
                100 <= n <= 999 && status == warp_status(n) && r == #[trigger] Self::for_status(n),
            forall|c: ErrorCode| status == #[trigger] warp_status(c.status_number()) ==> r == c,
    {
        let n = warp_status_as_u16(&status);
        let r = Self::from_status_code(n);
        proof {
            assert forall|c: ErrorCode| status == #[trigger] warp_status(c.status_number()) implies r
                == c by {
                let m: u16 = c.status_number();
                assert(100 <= m <= 999);
                assert(m == n);
                lemma_for_status_inverts_status_number(c);
            }
        }
        r
    }

    /// The error code of a status number (see `for_number`).
    pub fn from_u16(code: u16) -> (r: Self)
        ensures
            r == Self::for_number(code),
    {
        if code == 504 {
            ErrorCode::InternalServerError
        } else {
            Self::from_status_code(code)
        }
    }

    /// The name of this error code (its `Debug` text).
    pub fn name(&self) -> (r: &'static str)
        ensures
            r@ == self.name_text(),
    {
        match self {
            ErrorCode::BadRequest => "BadRequest",
            ErrorCode::Unauthorized => "Unauthorized",
            ErrorCode::Forbidden => "Forbidden",
            ErrorCode::NotFound => "NotFound",
            ErrorCode::UnprocessableEntity => "UnprocessableEntity",
            ErrorCode::MethodNotAllowed => "MethodNotAllowed",
            ErrorCode::RequestTimeout => "RequestTimeout",
            ErrorCode::TooManyRequests => "TooManyRequests",
            ErrorCode::InternalServerError => "InternalServerError",
            ErrorCode::BadGateway => "BadGateway",
            ErrorCode::ServiceUnavailable => "ServiceUnavailable",
            ErrorCode::GatewayTimeout => "GatewayTimeout",
        }
    }

    pub open spec fn name_text(self) -> Seq<char> {
        match self {
            ErrorCode::BadRequest => "BadRequest"@,
            ErrorCode::Unauthorized => "Unauthorized"@,
            ErrorCode::Forbidden => "Forbidden"@,
            ErrorCode::NotFound => "NotFound"@,
            ErrorCode::UnprocessableEntity => "UnprocessableEntity"@,
            ErrorCode::MethodNotAllowed => "MethodNotAllowed"@,
            ErrorCode::RequestTimeout => "RequestTimeout"@,
            ErrorCode::TooManyRequests => "TooManyRequests"@,
            ErrorCode::InternalServerError => "InternalServerError"@,
            ErrorCode::BadGateway => "BadGateway"@,
            ErrorCode::ServiceUnavailable => "ServiceUnavailable"@,
            ErrorCode::GatewayTimeout => "GatewayTimeout"@,
        }
    }
}

/// Reading back the status number of an error code gives the code again.
pub proof fn lemma_for_status_inverts_status_number(c: ErrorCode)
    ensures
        ErrorCode::for_status(c.status_number()) == c,
{
}

/// Reading back with `from_u16` gives the code again for every code but
/// `GatewayTimeout`, whose number 504 `from_u16` reads as
/// `InternalServerError`.
pub proof fn lemma_for_number_inverts_status_number(c: ErrorCode)
    ensures
        c != ErrorCode::GatewayTimeout ==> ErrorCode::for_number(c.status_number()) == c,
        ErrorCode::for_number(ErrorCode::GatewayTimeout.status_number())
            == ErrorCode::InternalServerError,
{
}

#[derive(Debug)]
pub struct ErrorResponse {
    pub success: bool,
    pub status: ErrorCode,
    pub msg: Option<String>,
}

impl ErrorResponse {
    /// A failed response: `NotFound` unless another code is given.
    pub fn new(error_code: Option<ErrorCode>, msg: Option<String>) -> (r: Self)
        ensures
            !r.success,
            r.status == match error_code {
                Some(c) => c,
                None => ErrorCode::NotFound,
            },
            r.msg == msg,
    {
        let status = match error_code {
            Some(c) => c,
            None => ErrorCode::NotFound,
        };
        ErrorResponse { success: false, status, msg }
    }

    /// The text of this response: its message (empty when there is none),
    /// `": "` and the name of its code.
    pub fn to_string(&self) -> (r: String)
        ensures
            r@ == match self.msg {
                Some(m) => m@,
                None => Seq::<char>::empty(),
            } + ": "@ + self.status.name_text(),
    {
        let mut r = match &self.msg {
            Some(m) => m.clone(),
            None => String::new(),
        };
        r.append(": ");
        r.append(self.status.name());
        r
    }
}

/// Each error code stands for the HTTP status its name denotes, and
/// distinct codes for distinct statuses.
pub proof fn lemma_error_codes_are_their_http_statuses(a: ErrorCode, b: ErrorCode)
    ensures
        ErrorCode::BadRequest.status_number() == 400,
        ErrorCode::Unauthorized.status_number() == 401,
        ErrorCode::Forbidden.status_number() == 403,
        ErrorCode::NotFound.status_number() == 404,
        ErrorCode::UnprocessableEntity.status_number() == 422,
        ErrorCode::MethodNotAllowed.status_number() == 405,
        ErrorCode::RequestTimeout.status_number() == 408,
        ErrorCode::TooManyRequests.status_number() == 429,
        ErrorCode::InternalServerError.status_number() == 500,
        ErrorCode::BadGateway.status_number() == 502,
        ErrorCode::ServiceUnavailable.status_number() == 503,
        ErrorCode::GatewayTimeout.status_number() == 504,
        a != b ==> a.status_number() != b.status_number(),
{
}

} // verus!
