use cnctd_server::auth::{AuthError, CnctdAuth};
use hmac::Mac;
use jwt::SignWithKey;
use cnctd_server::json::JsonValue;

#[test]
fn token_names_its_user() {
    let secret = b"top secret".to_vec();
    let token = CnctdAuth::get_jwt(secret.clone(), "user-42").unwrap();
    assert_eq!(token.matches('.').count(), 2);
    assert_eq!(CnctdAuth::verify_auth_token(secret, &token), Ok("user-42".to_string()));
}

#[test]
fn token_with_another_key_is_rejected() {
    let token = CnctdAuth::get_jwt(b"one".to_vec(), "u").unwrap();
    assert!(matches!(CnctdAuth::verify_auth_token(b"two".to_vec(), &token), Err(AuthError::Jwt(_))));
    assert!(matches!(CnctdAuth::verify_auth_token(b"one".to_vec(), "garbage"), Err(AuthError::Jwt(_))));
}

#[test]
fn subject_claim_kinds() {
    let c = |v: JsonValue| vec![("iat".to_string(), JsonValue::Number("1".to_string())), ("sub".to_string(), v)];
    assert_eq!(CnctdAuth::subject_from_claims(&c(JsonValue::String("ada".to_string()))), Ok("ada".to_string()));
    assert_eq!(CnctdAuth::subject_from_claims(&c(JsonValue::Number("17".to_string()))), Ok("17".to_string()));
    assert_eq!(CnctdAuth::subject_from_claims(&c(JsonValue::Bool(true))), Err(AuthError::UnexpectedSubType));
    assert_eq!(CnctdAuth::subject_from_claims(&vec![]), Err(AuthError::SubNotFound));
}

#[test]
fn numeric_subject_in_a_real_token() {
    let key: hmac::Hmac<sha2::Sha256> = hmac::Hmac::new_from_slice(b"k").unwrap();
    let mut claims = std::collections::BTreeMap::new();
    claims.insert("sub", serde_json::Value::from(99));
    let token = claims.sign_with_key(&key).unwrap();
    assert_eq!(CnctdAuth::verify_auth_token(b"k".to_vec(), &token), Ok("99".to_string()));
}
