use vstd::prelude::*;

verus! {

/// A cookie whose JSON text is signed.
#[derive(Debug, Clone, PartialEq, Eq)]
pub struct SignedCookie {
    pub key: String,
    pub value: String,
    /// Expiration, as a UNIX timestamp.
    pub expiration: Option<u64>,
    pub path: Option<String>,
    pub domain: Option<String>,
    pub secure: bool,
    pub http_only: bool,
}

impl SignedCookie {
    /// A secure, HTTP-only cookie without expiration, path or domain.
    pub fn new(key: String, value: String) -> (r: Self)
        ensures
            r.key == key,
            r.value == value,
            r.expiration is None,
            r.path is None,
            r.domain is None,
            r.secure,
            r.http_only,
    {
        SignedCookie {
            key,
            value,
            expiration: None,
            path: None,
            domain: None,
            secure: true,
            http_only: true,
        }
    }

    pub fn with_expiration(self, expiration: u64) -> (r: Self)
        ensures
            r == (SignedCookie { expiration: Some(expiration), ..self }),
    {
        let mut c = self;
        c.expiration = Some(expiration);
        c
    }

    pub fn with_path(self, path: String) -> (r: Self)
        ensures
            r == (SignedCookie { path: Some(path), ..self }),
    {
        let mut c = self;
        c.path = Some(path);
        c
    }

    pub fn with_domain(self, domain: String) -> (r: Self)
        ensures
            r == (SignedCookie { domain: Some(domain), ..self }),
    {
        let mut c = self;
        c.domain = Some(domain);
        c
    }
}

} // verus!
