//! Authentication tokens: HS256 JSON Web Tokens whose `sub` claim names the
//! user.
use std::collections::BTreeMap;

use hmac::{Hmac, Mac};
use jwt::{SignWithKey, VerifyWithKey};
use sha2::Sha256;
use vstd::prelude::*;

use crate::json::{JsonData, JsonValue};

verus! {

#[verifier::external_type_specification]
#[verifier::external_body]
pub struct ExSerdeJsonValue(serde_json::Value);

/// The claims of the HS256 JWT `token` under the key `secret`, if the
/// token verifies: each claim's name and JSON value, in name order.
pub uninterp spec fn jwt_hs256_claims(secret: Seq<u8>, token: Seq<char>) -> Option<
    Seq<(Seq<char>, JsonData)>,
>;

/// The HS256 JWT, signed with `secret`, whose only claim is `name` with the
/// string `value`.
pub uninterp spec fn jwt_hs256_claim_token(secret: Seq<u8>, name: Seq<char>, value: Seq<char>) -> Seq<char>;

/// The name of the subject claim.
pub open spec fn sub_claim() -> Seq<char> {
    seq!['s', 'u', 'b']
}

/// Why a token was not accepted or not made.
#[derive(Debug, Clone, PartialEq, Eq)]
pub enum AuthError {
    /// The key could not be made from the secret.
    Key(String),
    /// The token did not verify or could not be made (the JWT library's message).
    Jwt(String),
    /// "'sub' claim not found"
    SubNotFound,
    /// "Unexpected type for 'sub' claim"
    UnexpectedSubType,
}

/// A `serde_json::Value` as a [`JsonValue`], member for member. Nothing is
/// stated of it here: the callers' names say what it gives.
#[verifier::external_body]
fn json_from_serde(v: serde_json::Value) -> JsonValue {
    match v {
        serde_json::Value::Null => JsonValue::Null,
        serde_json::Value::Bool(b) => JsonValue::Bool(b),
        serde_json::Value::Number(n) => JsonValue::Number(n.to_string()),
        serde_json::Value::String(s) => JsonValue::String(s),
        serde_json::Value::Array(items) => JsonValue::Array(items.into_iter().map(json_from_serde).collect()),
        serde_json::Value::Object(m) => JsonValue::Object(m.into_iter().map(|(k, x)| (k, json_from_serde(x))).collect()),
    }
}

/// Verifies `token` as an HS256 JWT under the key `secret`
/// (`Hmac::<Sha256>::new_from_slice`, then `VerifyWithKey::verify_with_key`
/// into a `BTreeMap<String, serde_json::Value>`) and gives its claims.
/// Claimed: the claims are those `jwt_hs256_claims` names, and there are
/// claims exactly when the token verifies.
#[verifier::external_body]
fn jwt_verify_claims(secret: &[u8], token: &str) -> (r: Result<Vec<(String, JsonValue)>, AuthError>)
    ensures
        match r {
            Ok(claims) => jwt_hs256_claims(secret@, token@) == Some(
                claims@.map_values(|c: (String, JsonValue)| (c.0@, c.1@)),
            ),
            Err(e) => jwt_hs256_claims(secret@, token@) is None && e is Jwt,
        },
{
    let key: Hmac<Sha256> = match Hmac::new_from_slice(secret) {
        Ok(k) => k,
        Err(e) => return Err(AuthError::Key(e.to_string())),
    };
    match VerifyWithKey::<BTreeMap<String, serde_json::Value>>::verify_with_key(token, &key) {
        Ok(claims) => Ok(claims.into_iter().map(|(k, v)| (k, json_from_serde(v))).collect()),
        Err(e) => Err(AuthError::Jwt(e.to_string())),
    }
}

/// Signs the claims `{name: value}` as an HS256 JWT with the key `secret`
/// (`Hmac::<Sha256>::new_from_slice`, then `SignWithKey::sign_with_key` of a
/// `BTreeMap`). Claimed: this succeeds (HMAC takes a key of any length, and
/// a map of one string claim always serializes), the token is the one
/// `jwt_hs256_claim_token` names, and verifying it with the same key gives
/// back exactly that claim.
#[verifier::external_body]
fn jwt_sign_claim(secret: &[u8], name: &str, value: &str) -> (r: Result<String, AuthError>)
    ensures
        r is Ok,
        r->Ok_0@ == jwt_hs256_claim_token(secret@, name@, value@),
        jwt_hs256_claims(secret@, r->Ok_0@) == Some(seq![(name@, JsonData::String(value@))]),
{
    let key: Hmac<Sha256> = match Hmac::new_from_slice(secret) {
        Ok(k) => k,
        Err(e) => return Err(AuthError::Key(e.to_string())),
    };
    let mut claims = BTreeMap::new();
    claims.insert(name, value);
    match claims.sign_with_key(&key) {
        Ok(token) => Ok(token),
        Err(e) => Err(AuthError::Jwt(e.to_string())),
    }
}

/// The first claim named `name`.
pub open spec fn claim(claims: Seq<(Seq<char>, JsonData)>, name: Seq<char>) -> Option<JsonData>
    decreases claims.len(),
{
    if claims.len() == 0 {
        None
    } else if claims[0].0 == name {
        Some(claims[0].1)
    } else {
        claim(claims.drop_first(), name)
    }
}

/// The user that a token's claims name: the `sub` claim, a string or a
/// number (as its JSON text).
pub open spec fn subject_of(claims: Seq<(Seq<char>, JsonData)>) -> Result<Seq<char>, AuthError> {
    match claim(claims, sub_claim()) {
        None => Err(AuthError::SubNotFound),
        Some(JsonData::String(s)) => Ok(s),
        Some(JsonData::Number(n)) => Ok(n),
        Some(_) => Err(AuthError::UnexpectedSubType),
    }
}

pub struct CnctdAuth;

impl CnctdAuth {
    /// The user that a verified token's claims name (the part of
    /// `verify_auth_token` after the signature check).
    pub fn subject_from_claims(claims: &Vec<(String, JsonValue)>) -> (r: Result<String, AuthError>)
        ensures
            match subject_of(claims@.map_values(|c: (String, JsonValue)| (c.0@, c.1@))) {
                Ok(s) => r is Ok && r->Ok_0@ == s,
                Err(e) => r == Err::<String, AuthError>(e),
            },
    {
        let ghost cv = claims@.map_values(|c: (String, JsonValue)| (c.0@, c.1@));
        let name = String::from_str("sub");
        proof {
            reveal_strlit("sub");
            assert("sub"@ =~= sub_claim());
        }
        let mut i: usize = 0;
        assert(cv.skip(0) =~= cv);
        while i < claims.len()
            invariant
                cv == claims@.map_values(|c: (String, JsonValue)| (c.0@, c.1@)),
                i <= claims@.len(),
                name@ == sub_claim(),
                claim(cv, sub_claim()) == claim(cv.skip(i as int), sub_claim()),
            decreases claims@.len() - i,
        {
            assert(cv.skip(i as int)[0] == cv[i as int]);
            if claims[i].0 == name {
                return match &claims[i].1 {
                    JsonValue::String(s) => Ok(s.clone()),
                    JsonValue::Number(n) => Ok(n.clone()),
                    _ => Err(AuthError::UnexpectedSubType),
                };
            }
            assert(cv.skip(i as int).drop_first() =~= cv.skip(i as int + 1));
            i = i + 1;
        }
        Err(AuthError::SubNotFound)
    }

    /// The user that an HS256 token signed with `secret` names in its `sub`
    /// claim.
    pub fn verify_auth_token(secret: Vec<u8>, auth_token: &str) -> (r: Result<String, AuthError>)
        ensures
            match jwt_hs256_claims(secret@, auth_token@) {
                None => r is Err && r->Err_0 is Jwt,
                Some(claims) => match subject_of(claims) {
                    Ok(s) => r is Ok && r->Ok_0@ == s,
                    Err(e) => r == Err::<String, AuthError>(e),
                },
            },
    {
        let claims = jwt_verify_claims(secret.as_slice(), auth_token)?;
        Self::subject_from_claims(&claims)
    }

    /// An HS256 token, signed with `secret`, whose `sub` claim is `user_id`.
    pub fn get_jwt(secret: Vec<u8>, user_id: &str) -> (r: Result<String, AuthError>)
        ensures
            r is Ok,
            r->Ok_0@ == jwt_hs256_claim_token(secret@, sub_claim(), user_id@),
            jwt_hs256_claims(secret@, r->Ok_0@) == Some(seq![(sub_claim(), JsonData::String(user_id@))]),
    {
        let name = "sub";
        proof {
            reveal_strlit("sub");
            assert(name@ =~= sub_claim());
        }
        jwt_sign_claim(secret.as_slice(), name, user_id)
    }
}

/// A token whose verified claims are `sub` with a user's id, such as every
/// token `get_jwt` makes, is read back as that user.
pub proof fn lemma_subject_token_names_user(secret: Seq<u8>, token: Seq<char>, user_id: Seq<char>)
    requires
        jwt_hs256_claims(secret, token) == Some(seq![(sub_claim(), JsonData::String(user_id))]),
    ensures
        subject_of(jwt_hs256_claims(secret, token)->0) == Ok::<Seq<char>, AuthError>(user_id),
{
    let c = seq![(sub_claim(), JsonData::String(user_id))];
    assert(c[0].0 == sub_claim());
}

} // verus!
