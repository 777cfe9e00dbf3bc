use cnctd_server::json::JsonValue;
use cnctd_server::router::error::{ErrorCode, ErrorResponse};
use cnctd_server::router::error_;
use cnctd_server::router::message::Message;
use cnctd_server::router::response::{SocketResponse, SuccessCode, SuccessResponse};
use cnctd_server::router::HttpMethod;

const ALL_CODES: [ErrorCode; 12] = [
    ErrorCode::BadRequest,
    ErrorCode::Unauthorized,
    ErrorCode::Forbidden,
    ErrorCode::NotFound,
    ErrorCode::UnprocessableEntity,
    ErrorCode::MethodNotAllowed,
    ErrorCode::RequestTimeout,
    ErrorCode::TooManyRequests,
    ErrorCode::InternalServerError,
    ErrorCode::BadGateway,
    ErrorCode::ServiceUnavailable,
    ErrorCode::GatewayTimeout,
];

#[test]
fn error_code_numbers() {
    let expected = [400, 401, 403, 404, 422, 405, 408, 429, 500, 502, 503, 504];
    for (c, n) in ALL_CODES.iter().zip(expected.iter()) {
        assert_eq!(c.code(), *n);
    }
}

#[test]
fn from_u16_reads_codes_back_except_gateway_timeout() {
    for c in ALL_CODES.iter() {
        if *c == ErrorCode::GatewayTimeout {
            assert_eq!(ErrorCode::from_u16(c.code()), ErrorCode::InternalServerError);
        } else {
            assert_eq!(ErrorCode::from_u16(c.code()), *c);
        }
    }
    assert_eq!(ErrorCode::from_u16(418), ErrorCode::InternalServerError);
    assert_eq!(ErrorCode::from_u16(0), ErrorCode::InternalServerError);
}

#[test]
fn warp_status_codes_round_trip() {
    assert_eq!(ErrorCode::BadRequest.to_warp_status_code(), warp::http::StatusCode::BAD_REQUEST);
    assert_eq!(ErrorCode::GatewayTimeout.to_warp_status_code(), warp::http::StatusCode::GATEWAY_TIMEOUT);
    for c in ALL_CODES.iter() {
        assert_eq!(c.to_warp_status_code().as_u16(), c.code());
        assert_eq!(ErrorCode::from_status(c.to_warp_status_code()), *c);
    }
    assert_eq!(ErrorCode::from_status(warp::http::StatusCode::IM_A_TEAPOT), ErrorCode::InternalServerError);
}

#[test]
fn axum_status_codes() {
    assert_eq!(ErrorCode::UnprocessableEntity.to_axum_status_code(), http::StatusCode::UNPROCESSABLE_ENTITY);
    for c in ALL_CODES.iter() {
        assert_eq!(c.to_axum_status_code().as_u16(), c.code());
    }
    assert_eq!(SuccessCode::Created.to_axum_status_code(), http::StatusCode::CREATED);
}

#[test]
fn from_status_code_numbers() {
    assert_eq!(ErrorCode::from_status_code(504), ErrorCode::GatewayTimeout);
    assert_eq!(ErrorCode::from_status_code(422), ErrorCode::UnprocessableEntity);
    assert_eq!(ErrorCode::from_status_code(200), ErrorCode::InternalServerError);
}

#[test]
fn error_response_defaults_to_not_found() {
    let r = ErrorResponse::new(None, Some("missing".to_string()));
    assert!(!r.success);
    assert_eq!(r.status, ErrorCode::NotFound);
    assert_eq!(r.msg, Some("missing".to_string()));
    let r = ErrorResponse::new(Some(ErrorCode::Forbidden), None);
    assert_eq!(r.status, ErrorCode::Forbidden);
    assert_eq!(r.msg, None);
}

#[test]
fn error_response_text() {
    let r = ErrorResponse::new(Some(ErrorCode::BadRequest), Some("Unknown route".to_string()));
    assert_eq!(r.to_string(), "Unknown route: BadRequest");
    let r = ErrorResponse::new(None, None);
    assert_eq!(r.to_string(), ": NotFound");
    assert_eq!(ErrorCode::TooManyRequests.name(), format!("{:?}", ErrorCode::TooManyRequests));
}

#[test]
fn error_descriptions_and_constructors() {
    assert_eq!(
        error_::ErrorCode::NotFound.description(),
        "Not Found: The requested resource could not be found but may be available in the future."
    );
    assert_eq!(error_::ErrorCode::GatewayTimeout.code(), 504);
    let e = error_::Error::from_code(error_::ErrorCode::Forbidden);
    assert_eq!(e.code, error_::ErrorCode::Forbidden);
    assert_eq!(
        e.message.as_deref(),
        Some("Forbidden: The server understood the request but refuses to authorize it.")
    );
    let d = error_::Error::default();
    assert_eq!(d.code, error_::ErrorCode::InternalServerError);
    assert_eq!(d.message.as_deref(), Some(error_::ErrorCode::InternalServerError.description()));
    let n = error_::Error::new(error_::ErrorCode::BadRequest, None);
    assert_eq!(n, error_::Error { code: error_::ErrorCode::BadRequest, message: None });
    let a = error_::Error::from_anyhow(anyhow::Error::msg("boom"));
    assert_eq!(a.code, error_::ErrorCode::InternalServerError);
    assert_eq!(a.message.as_deref(), Some("boom"));
    assert_eq!(a.to_warp_status_code(), warp::http::StatusCode::INTERNAL_SERVER_ERROR);
}

#[test]
fn success_responses() {
    let r = SuccessResponse::new(None, None, Some(JsonValue::Bool(true)));
    assert!(r.success);
    assert_eq!(r.status, SuccessCode::OK);
    assert_eq!(r.data, Some(JsonValue::Bool(true)));
    let r = SuccessResponse::new(Some(SuccessCode::Created), Some("made".to_string()), None);
    assert_eq!(r.status, SuccessCode::Created);
    assert_eq!(r.msg.as_deref(), Some("made"));
    assert_eq!(SuccessCode::NoContent.code(), 204);
    assert_eq!(SuccessCode::Accepted.to_warp_status_code(), warp::http::StatusCode::ACCEPTED);
    let ok = SocketResponse::success(None, None, "chan".to_string());
    assert!(ok.success);
    assert_eq!(ok.response_channel, "chan");
    let bad = SocketResponse::failure(Some("no".to_string()), None, "chan".to_string());
    assert!(!bad.success);
    assert_eq!(bad.msg.as_deref(), Some("no"));
}

#[test]
fn message_new_copies_its_fields() {
    let m = Message::new("server-info", "heartbeat", None);
    assert_eq!(m.channel, "server-info");
    assert_eq!(m.instruction, "heartbeat");
    assert_eq!(m.data, None);
    assert_ne!(HttpMethod::GET, HttpMethod::POST);
}
