//! Signing cookies with RSA (PKCS#1 v1.5, SHA-256) and checking them.
//!
//! A signed cookie is the cookie's JSON text, a dot, and the URL-safe,
//! unpadded base64 of the signature of that text.
use base64::Engine;
use vstd::prelude::*;
use vstd::string::StringSliceAdditionalSpecFns;
use vstd::utf8::encode_utf8;

use crate::text::{split_on, split_str};
use crate::utils::signed_cookie::SignedCookie;

verus! {

/// The RSA PKCS#1 v1.5 SHA-256 signature of `message` under the private key
/// `private_key` (PKCS#8 DER). Such a signature depends on the key and the
/// message alone.
pub uninterp spec fn rsa_pkcs1_sha256_signature(private_key: Seq<u8>, message: Seq<u8>) -> Seq<u8>;

/// Whether `RsaKeyPair::sign` with `RSA_PKCS1_SHA256` succeeds for the key
/// pair `private_key` (PKCS#8 DER) and `message`: PKCS#1 v1.5 padding draws
/// no randomness, so whether the signature passes `sign`'s own check against
/// the public key depends on the key and the message alone.
pub uninterp spec fn rsa_pkcs1_sha256_signs(private_key: Seq<u8>, message: Seq<u8>) -> bool;

/// Whether `ring::signature::RsaKeyPair::from_pkcs8` accepts `private_key`.
pub uninterp spec fn rsa_pkcs8_key_accepted(private_key: Seq<u8>) -> bool;

/// The public key of the RSA key pair `private_key` (PKCS#8 DER), as
/// `RsaKeyPair::public().as_ref()` gives it: a DER `RSAPublicKey`.
pub uninterp spec fn rsa_public_key_of(private_key: Seq<u8>) -> Seq<u8>;

/// Whether `signature` is a valid RSA PKCS#1 v1.5 SHA-256 signature of
/// `message` under the public key `public_key` (a DER `RSAPublicKey` with a
/// modulus of 2048 to 8192 bits).
pub uninterp spec fn rsa_pkcs1_sha256_verifies(
    public_key: Seq<u8>,
    message: Seq<u8>,
    signature: Seq<u8>,
) -> bool;

/// The URL-safe base64 text of `bytes`, without padding.
pub uninterp spec fn base64_url_encoded(bytes: Seq<u8>) -> Seq<char>;

/// The bytes that a URL-safe base64 text without padding denotes, if it is
/// one.
pub uninterp spec fn base64_url_decoded(text: Seq<u8>) -> Option<Seq<u8>>;

/// A character of the URL-safe base64 alphabet.
pub open spec fn is_url_safe_base64_char(c: char) -> bool {
    let n = c as u32;
    ||| (65 <= n && n <= 90)
    ||| (97 <= n && n <= 122)
    ||| (48 <= n && n <= 57)
    ||| n == 45
    ||| n == 95
}

/// Why signing or checking a cookie failed.
#[derive(Debug, Clone, PartialEq, Eq)]
pub enum CookieError {
    /// "Failed to serialize cookie: {0}"
    Serialize(String),
    /// "Failed to load RSA key pair: {0}"
    KeyRejected(String),
    /// "Failed to sign cookie: {0}"
    Sign(String),
    /// "Invalid cookie format"
    InvalidFormat,
    /// "Failed to decode base64 signature: {0}"
    SignatureDecode(String),
    /// "Failed to verify signature"
    Verify,
    /// "Failed to deserialize cookie: {0}"
    Deserialize(String),
}

/// Signs `message` with the RSA private key `private_key` (PKCS#8 DER), as
/// `ring` documents it: `RsaKeyPair::from_pkcs8`, then `RsaKeyPair::sign`
/// with `RSA_PKCS1_SHA256` into a buffer of `public().modulus_len()` bytes,
/// with a `SystemRandom` (which PKCS#1 v1.5 padding does not draw on).
/// Claimed: a rejected key gives `KeyRejected`. An accepted key gives its
/// signature, which `sign` has checked against the pair's public key, exactly
/// when `rsa_pkcs1_sha256_signs` holds, and a `Sign` error otherwise
/// (`from_pkcs8` does not check that the public exponent fits the private
/// key, so `sign`'s own check of the signature can fail).
#[verifier::external_body]
fn rsa_sign(private_key: &[u8], message: &[u8]) -> (r: Result<Vec<u8>, CookieError>)
    ensures
        match r {
            Ok(sig) => rsa_pkcs8_key_accepted(private_key@) && sig@ == rsa_pkcs1_sha256_signature(
                private_key@,
                message@,
            ) && rsa_pkcs1_sha256_signs(private_key@, message@) && rsa_pkcs1_sha256_verifies(
                rsa_public_key_of(private_key@),
                message@,
                sig@,
            ),
            Err(e) => (e is KeyRejected && !rsa_pkcs8_key_accepted(private_key@)) || (e is Sign
                && rsa_pkcs8_key_accepted(private_key@) && !rsa_pkcs1_sha256_signs(
                private_key@,
                message@,
            )),
        },
{
    let key_pair = match ring::signature::RsaKeyPair::from_pkcs8(private_key) {
        Ok(k) => k,
        Err(e) => return Err(CookieError::KeyRejected(e.to_string())),
    };
    let rng = ring::rand::SystemRandom::new();
    let mut signature = vec![0; key_pair.public().modulus_len()];
    match key_pair.sign(&ring::signature::RSA_PKCS1_SHA256, &rng, message, &mut signature) {
        Ok(()) => Ok(signature),
        Err(e) => Err(CookieError::Sign(e.to_string())),
    }
}

/// The public key of the key pair `private_key` (PKCS#8 DER):
/// `RsaKeyPair::from_pkcs8`, then `public().as_ref()`, a DER `RSAPublicKey`.
/// Claimed: a rejected key gives `KeyRejected`, an accepted one the bytes
/// that `rsa_public_key_of` names.
#[verifier::external_body]
fn rsa_public_key(private_key: &[u8]) -> (r: Result<Vec<u8>, CookieError>)
    ensures
        match r {
            Ok(pk) => rsa_pkcs8_key_accepted(private_key@) && pk@ == rsa_public_key_of(private_key@),
            Err(e) => e is KeyRejected && !rsa_pkcs8_key_accepted(private_key@),
        },
{
    match ring::signature::RsaKeyPair::from_pkcs8(private_key) {
        Ok(k) => Ok(k.public().as_ref().to_vec()),
        Err(e) => Err(CookieError::KeyRejected(e.to_string())),
    }
}

/// Checks an RSA PKCS#1 v1.5 SHA-256 signature:
/// `ring::signature::UnparsedPublicKey::new(&RSA_PKCS1_2048_8192_SHA256, public_key).verify(..)`.
/// Claimed: the answer is `rsa_pkcs1_sha256_verifies` of the arguments.
#[verifier::external_body]
fn rsa_verify(public_key: &[u8], message: &[u8], signature: &[u8]) -> (ok: bool)
    ensures
        ok == rsa_pkcs1_sha256_verifies(public_key@, message@, signature@),
{
    ring::signature::UnparsedPublicKey::new(&ring::signature::RSA_PKCS1_2048_8192_SHA256, public_key)
        .verify(message, signature)
        .is_ok()
}

/// `base64::engine::general_purpose::URL_SAFE_NO_PAD.encode`. Claimed, as
/// the engine's alphabet and round trip show: the text holds only URL-safe
/// base64 characters, and decoding it with the same engine gives the bytes
/// back.
#[verifier::external_body]
fn base64_url_encode(bytes: &[u8]) -> (r: String)
    ensures
        r@ == base64_url_encoded(bytes@),
        forall|i: int| 0 <= i < r@.len() ==> is_url_safe_base64_char(#[trigger] r@[i]),
        base64_url_decoded(encode_utf8(r@)) == Some(bytes@),
{
    base64::engine::general_purpose::URL_SAFE_NO_PAD.encode(bytes)
}

/// `base64::engine::general_purpose::URL_SAFE_NO_PAD.decode` of the text's
/// bytes; the error is the engine's message.
#[verifier::external_body]
fn base64_url_decode(text: &str) -> (r: Result<Vec<u8>, String>)
    ensures
        match r {
            Ok(b) => base64_url_decoded(text.spec_bytes()) == Some(b@),
            Err(_) => base64_url_decoded(text.spec_bytes()) is None,
        },
{
    match base64::engine::general_purpose::URL_SAFE_NO_PAD.decode(text) {
        Ok(b) => Ok(b),
        Err(e) => Err(e.to_string()),
    }
}

/// The signed-cookie text of the JSON text `json` and the signature
/// `signature`.
pub open spec fn framed(json: Seq<char>, signature: Seq<u8>) -> Seq<char> {
    json + seq!['.'] + base64_url_encoded(signature)
}

/// How a signed-cookie text fares against a public key, before its JSON is
/// read.
pub enum CookieCheck {
    /// The signature holds; the JSON text of the cookie.
    Accepted(Seq<char>),
    /// The text is not two parts separated by one dot.
    InvalidFormat,
    /// The second part is not URL-safe unpadded base64.
    BadEncoding,
    /// The signature does not hold.
    BadSignature,
}

pub open spec fn check_signed_cookie(signed: Seq<char>, public_key: Seq<u8>) -> CookieCheck {
    let parts = split_on(signed, '.');
    if parts.len() != 2 {
        CookieCheck::InvalidFormat
    } else {
        match base64_url_decoded(encode_utf8(parts[1])) {
            None => CookieCheck::BadEncoding,
            Some(sig) => if rsa_pkcs1_sha256_verifies(public_key, encode_utf8(parts[0]), sig) {
                CookieCheck::Accepted(parts[0])
            } else {
                CookieCheck::BadSignature
            },
        }
    }
}

/// Signing succeeded or failed as it should for the private key `key` and
/// the JSON text that serializing the cookie gave: serialization errors are
/// passed on, a rejected key is reported, an accepted key that does not sign
/// the text gives a signing error, and otherwise the result is the JSON, a
/// dot and the base64 of its signature (which holds under the pair's public
/// key).
pub open spec fn signed_as(key: Seq<u8>, json: Result<String, String>, r: Result<String, CookieError>) -> bool {
    match json {
        Err(m) => r == Err::<String, CookieError>(CookieError::Serialize(m)),
        Ok(j) => match r {
            Ok(t) => {
                let sig = rsa_pkcs1_sha256_signature(key, encode_utf8(j@));
                &&& rsa_pkcs8_key_accepted(key)
                &&& rsa_pkcs1_sha256_signs(key, encode_utf8(j@))
                &&& t@ == framed(j@, sig)
                &&& rsa_pkcs1_sha256_verifies(rsa_public_key_of(key), encode_utf8(j@), sig)
                &&& forall|i: int|
                    0 <= i < base64_url_encoded(sig).len() ==> is_url_safe_base64_char(
                        #[trigger] base64_url_encoded(sig)[i],
                    )
                &&& base64_url_decoded(encode_utf8(base64_url_encoded(sig))) == Some(sig)
            },
            Err(e) => (e is KeyRejected && !rsa_pkcs8_key_accepted(key)) || (e is Sign
                && rsa_pkcs8_key_accepted(key) && !rsa_pkcs1_sha256_signs(key, encode_utf8(j@))),
        },
    }
}

/// Checking succeeded or failed as it should for the signed-cookie text
/// `signed` and the public key `public_key`, reading an accepted cookie's
/// JSON with `from_json`.
pub open spec fn verified_as<G: Fn(&str) -> Result<SignedCookie, String>>(
    signed: Seq<char>,
    public_key: Seq<u8>,
    from_json: G,
    r: Result<SignedCookie, CookieError>,
) -> bool {
    match check_signed_cookie(signed, public_key) {
        CookieCheck::InvalidFormat => r == Err::<SignedCookie, CookieError>(CookieError::InvalidFormat),
        CookieCheck::BadEncoding => r is Err && r->Err_0 is SignatureDecode,
        CookieCheck::BadSignature => r == Err::<SignedCookie, CookieError>(CookieError::Verify),
        CookieCheck::Accepted(json) => exists|s: &str|
            #![trigger s@]
            s@ == json && match r {
                Ok(c) => from_json.ensures((s,), Ok(c)),
                Err(CookieError::Deserialize(m)) => from_json.ensures((s,), Err(m)),
                Err(_) => false,
            },
    }
}

pub struct RSASigner {
    private_key: Vec<u8>,
}

impl RSASigner {
    /// The private key (PKCS#8 DER) this signer signs with.
    pub closed spec fn key(&self) -> Seq<u8> {
        self.private_key@
    }

    pub fn new(private_key: Vec<u8>) -> (r: Self)
        ensures
            r.key() == private_key@,
    {
        RSASigner { private_key }
    }

    /// The public key of this signer's key pair (a DER `RSAPublicKey`), the
    /// key that its signatures check against.
    pub fn public_key(&self) -> (r: Result<Vec<u8>, CookieError>)
        ensures
            match r {
                Ok(pk) => rsa_pkcs8_key_accepted(self.key()) && pk@ == rsa_public_key_of(self.key()),
                Err(e) => e is KeyRejected && !rsa_pkcs8_key_accepted(self.key()),
            },
    {
        rsa_public_key(self.private_key.as_slice())
    }

    /// The signed-cookie text of `cookie`: its JSON text (as `to_json` writes
    /// it), a dot, and the base64 of the signature of that text.
    pub fn sign_cookie<F: Fn(&SignedCookie) -> Result<String, String>>(
        &self,
        cookie: &SignedCookie,
        to_json: F,
    ) -> (r: Result<String, CookieError>)
        requires
            to_json.requires((cookie,)),
        ensures
            exists|json: Result<String, String>|
                to_json.ensures((cookie,), json) && signed_as(self.key(), json, r),
            rsa_pkcs8_key_accepted(self.key()) && (forall|json: Result<String, String>|
                #[trigger] to_json.ensures((cookie,), json) ==> json is Ok && rsa_pkcs1_sha256_signs(
                    self.key(),
                    encode_utf8(json->Ok_0@),
                )) ==> r is Ok,
    {
        let json = to_json(cookie);
        let serialized = match json {
            Ok(s) => s,
            Err(m) => {
                let r = Err(CookieError::Serialize(m));
                assert(to_json.ensures((cookie,), json) && signed_as(self.key(), json, r));
                return r;
            },
        };
        let signature = match rsa_sign(self.private_key.as_slice(), serialized.as_str().as_bytes()) {
            Ok(sig) => sig,
            Err(e) => {
                let r = Err(e);
                assert(to_json.ensures((cookie,), json) && signed_as(self.key(), json, r));
                return r;
            },
        };
        let encoded = base64_url_encode(signature.as_slice());
        let mut t = serialized.clone();
        t.append(".");
        t.append(encoded.as_str());
        proof {
            reveal_strlit(".");
            assert("."@ =~= seq!['.']);
        }
        let r = Ok(t);
        assert(to_json.ensures((cookie,), json) && signed_as(self.key(), json, r));
        r
    }

    /// The cookie that a signed-cookie text carries, if its signature holds
    /// under `public_key`; `from_json` reads the cookie's JSON text.
    pub fn verify_cookie<G: Fn(&str) -> Result<SignedCookie, String>>(
        &self,
        signed_cookie: &str,
        public_key: &[u8],
        from_json: G,
    ) -> (r: Result<SignedCookie, CookieError>)
        requires
            forall|s: &str| from_json.requires((s,)),
        ensures
            verified_as(signed_cookie@, public_key@, from_json, r),
    {
        let parts = split_str(signed_cookie, '.');
        if parts.len() != 2 {
            return Err(CookieError::InvalidFormat);
        }
        proof {
            assert(parts@.map_values(|x: String| x@)[0] == parts@[0]@);
            assert(parts@.map_values(|x: String| x@)[1] == parts@[1]@);
        }
        let signature = match base64_url_decode(parts[1].as_str()) {
            Ok(b) => b,
            Err(m) => return Err(CookieError::SignatureDecode(m)),
        };
        if !rsa_verify(public_key, parts[0].as_str().as_bytes(), signature.as_slice()) {
            return Err(CookieError::Verify);
        }
        let json = parts[0].as_str();
        match from_json(json) {
            Ok(c) => Ok(c),
            Err(m) => Err(CookieError::Deserialize(m)),
        }
    }
}

/// A cookie signed with a private key, whose JSON text holds no dot, checks
/// against that key pair's public key (what `RSASigner::public_key` gives)
/// as exactly its JSON text.
pub proof fn lemma_signed_cookie_checks(key: Seq<u8>, json: String, signed: String)
    requires
        signed_as(key, Ok(json), Ok(signed)),
        !json@.contains('.'),
    ensures
        check_signed_cookie(signed@, rsa_public_key_of(key)) == CookieCheck::Accepted(json@),
{
    let sig = rsa_pkcs1_sha256_signature(key, encode_utf8(json@));
    lemma_framed_cookie_reads_back(json@, sig, rsa_public_key_of(key));
}

proof fn lemma_split_without_sep(a: Seq<char>, sep: char)
    requires
        !a.contains(sep),
    ensures
        split_on(a, sep) == seq![a],
    decreases a.len(),
{
    if a.len() > 0 {
        assert(!a.drop_last().contains(sep)) by {
            if a.drop_last().contains(sep) {
                let i = choose|i: int| 0 <= i < a.drop_last().len() && a.drop_last()[i] == sep;
                assert(a[i] == sep);
            }
        }
        lemma_split_without_sep(a.drop_last(), sep);
        assert(a.last() != sep) by {
            assert(a[a.len() - 1] == a.last());
        }
        assert(a.drop_last().push(a.last()) =~= a);
        assert(seq![a.drop_last()].update(0, a.drop_last().push(a.last())) =~= seq![a]);
    } else {
        assert(a =~= Seq::<char>::empty());
    }
}

proof fn lemma_split_after_sep(a: Seq<char>, b: Seq<char>, sep: char)
    requires
        !b.contains(sep),
    ensures
        split_on(a + seq![sep] + b, sep) == split_on(a, sep).push(b),
    decreases b.len(),
{
    let x = a + seq![sep] + b;
    if b.len() == 0 {
        assert(x.drop_last() =~= a);
        assert(x.last() == sep);
        assert(b =~= Seq::<char>::empty());
    } else {
        assert(!b.drop_last().contains(sep)) by {
            if b.drop_last().contains(sep) {
                let i = choose|i: int| 0 <= i < b.drop_last().len() && b.drop_last()[i] == sep;
                assert(b[i] == sep);
            }
        }
        lemma_split_after_sep(a, b.drop_last(), sep);
        assert(x.drop_last() =~= a + seq![sep] + b.drop_last());
        assert(x.last() == b.last());
        assert(b.last() != sep) by {
            assert(b[b.len() - 1] == b.last());
        }
        let prev = split_on(a, sep).push(b.drop_last());
        assert(prev.update(prev.len() - 1, prev.last().push(b.last())) =~= split_on(a, sep).push(b)) by {
            assert(b.drop_last().push(b.last()) =~= b);
        }
    }
}

/// A signed-cookie text whose JSON holds no dot is read back as that JSON
/// exactly when its signature holds under the public key. (The conditions
/// on the base64 text are what `base64_url_encode` promises of what it
/// writes.)
pub proof fn lemma_framed_cookie_reads_back(json: Seq<char>, signature: Seq<u8>, public_key: Seq<u8>)
    requires
        !json.contains('.'),
        forall|i: int|
            0 <= i < base64_url_encoded(signature).len() ==> is_url_safe_base64_char(
                #[trigger] base64_url_encoded(signature)[i],
            ),
        base64_url_decoded(encode_utf8(base64_url_encoded(signature))) == Some(signature),
    ensures
        check_signed_cookie(framed(json, signature), public_key) == if rsa_pkcs1_sha256_verifies(
            public_key,
            encode_utf8(json),
            signature,
        ) {
            CookieCheck::Accepted(json)
        } else {
            CookieCheck::BadSignature
        },
{
    let enc = base64_url_encoded(signature);
    assert(!enc.contains('.')) by {
        if enc.contains('.') {
            let i = choose|i: int| 0 <= i < enc.len() && enc[i] == '.';
            assert(is_url_safe_base64_char(enc[i]));
        }
    }
    lemma_split_without_sep(json, '.');
    lemma_split_after_sep(json, enc, '.');
}

} // verus!
