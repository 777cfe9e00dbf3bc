//! Helpers around serving files and signed cookies: reading a `Range`
//! header, and signing or checking a cookie with RSA.
pub mod rsa_signer;
pub mod signed_cookie;

use vstd::prelude::*;
use vstd::utf8::encode_utf8;

use crate::text::{parse_usize, parse_usize_str, split_on, split_str, strings_view, trim, trim_str};
use crate::utils::rsa_signer::{rsa_pkcs1_sha256_signs, rsa_pkcs8_key_accepted, signed_as, verified_as, CookieError, RSASigner};
use crate::utils::signed_cookie::SignedCookie;

verus! {

/// The unit of a byte range header.
pub open spec fn bytes_unit() -> Seq<char> {
    seq!['b', 'y', 't', 'e', 's']
}

/// The numbers among the `-`-separated parts of a range, in order, the
/// parts that are not numbers left out.
pub open spec fn range_numbers(spec_range: Seq<char>) -> Seq<usize> {
    split_on(spec_range, '-').filter_map(|p: Seq<char>| parse_usize(p))
}

/// The range that a `Range` header asks for: `bytes=` and then exactly two
/// numbers among its `-`-separated parts.
pub open spec fn range_header(header: Seq<char>) -> Option<(usize, usize)> {
    let parts = split_on(trim(header), '=');
    if parts.len() != 2 || parts[0] != bytes_unit() {
        None
    } else {
        let nums = range_numbers(parts[1]);
        if nums.len() == 2 {
            Some((nums[0], nums[1]))
        } else {
            None
        }
    }
}

/// The first and the last byte that a `Range` header (`bytes=first-last`)
/// asks for.
pub fn parse_range_header(range: String) -> (r: Option<(usize, usize)>)
    ensures
        r == range_header(range@),
{
    let t = trim_str(range.as_str());
    let parts = split_str(t, '=');
    if parts.len() != 2 {
        return None;
    }
    proof {
        assert(strings_view(parts@)[0] == parts@[0]@);
        assert(strings_view(parts@)[1] == parts@[1]@);
    }
    let unit = String::from_str("bytes");
    proof {
        reveal_strlit("bytes");
        assert("bytes"@ =~= bytes_unit());
    }
    if !(parts[0] == unit) {
        return None;
    }
    let pieces = split_str(parts[1].as_str(), '-');
    let ghost pv = strings_view(pieces@);
    let ghost f = |p: Seq<char>| parse_usize(p);
    let mut nums: Vec<usize> = Vec::new();
    let mut i: usize = 0;
    assert(pv.take(0) =~= Seq::<Seq<char>>::empty());
    while i < pieces.len()
        invariant
            pv == strings_view(pieces@),
            f == (|p: Seq<char>| parse_usize(p)),
            i <= pieces@.len(),
            nums@ == pv.take(i as int).filter_map(f),
        decreases pieces@.len() - i,
    {
        proof {
            let tk = pv.take(i as int + 1);
            assert(tk.drop_last() =~= pv.take(i as int));
            assert(tk.last() == pieces@[i as int]@);
        }
        match parse_usize_str(pieces[i].as_str()) {
            Some(v) => {
                let ghost before = nums@;
                nums.push(v);
                assert(nums@ =~= before + seq![v]);
            },
            None => {},
        }
        i = i + 1;
    }
    assert(pv.take(pieces@.len() as int) =~= pv);
    if nums.len() == 2 {
        Some((nums[0], nums[1]))
    } else {
        None
    }
}

/// The part of a file of `content_len` bytes that a range `(first, last)`
/// gives: from `first` up to `last` inclusive, cut at the end of the file.
/// The range must start within that part and the part must end after byte
/// zero (serving the file's index panics otherwise).
pub fn range_bounds(content_len: usize, range: (usize, usize)) -> (r: (usize, usize))
    requires
        range.1 < usize::MAX,
        range.0 <= content_len,
        range.0 <= range.1 + 1,
        content_len >= 1,
    ensures
        r.0 == range.0,
        r.1 == if content_len <= range.1 + 1 {
            content_len
        } else {
            (range.1 + 1) as usize
        },
        r.0 <= r.1,
        r.1 >= 1,
{
    let start = range.0;
    let end = if content_len <= range.1 + 1 {
        content_len
    } else {
        range.1 + 1
    };
    (start, end)
}

/// The cookie that `generate_signed_cookie` signs.
pub open spec fn cookie_for(
    c: SignedCookie,
    key: Seq<char>,
    value: Seq<char>,
    expiration: u64,
    domain: Seq<char>,
    path: Seq<char>,
) -> bool {
    &&& c.key@ == key
    &&& c.value@ == value
    &&& c.expiration == Some(expiration)
    &&& c.domain is Some && c.domain->0@ == domain
    &&& c.path is Some && c.path->0@ == path
    &&& c.secure
    &&& c.http_only
}

/// Signs a secure, HTTP-only cookie `key=value` with the given expiration,
/// domain and path, with the RSA private key `private_key` (PKCS#8 DER);
/// `to_json` writes the cookie's JSON text.
pub fn generate_signed_cookie<F: Fn(&SignedCookie) -> Result<String, String>>(
    key: &str,
    value: &str,
    private_key: &[u8],
    expiration: u64,
    domain: &str,
    path: &str,
    to_json: F,
) -> (r: Result<String, CookieError>)
    requires
        forall|c: &SignedCookie| to_json.requires((c,)),
    ensures
        exists|c: SignedCookie, json: Result<String, String>|
            cookie_for(c, key@, value@, expiration, domain@, path@) && to_json.ensures((&c,), json)
                && signed_as(private_key@, json, r),
            rsa_pkcs8_key_accepted(private_key@) && (forall|c: &SignedCookie, json: Result<String, String>|
                #[trigger] to_json.ensures((c,), json) ==> json is Ok && rsa_pkcs1_sha256_signs(
                    private_key@,
                    encode_utf8(json->Ok_0@),
                )) ==> r is Ok,
{
    let cookie = SignedCookie::new(String::from_str(key), String::from_str(value)).with_expiration(
        expiration,
    ).with_domain(String::from_str(domain)).with_path(String::from_str(path));
    let signer = RSASigner::new(vstd::slice::slice_to_vec(private_key));
    let r = signer.sign_cookie(&cookie, to_json);
    proof {
        let json = choose|json: Result<String, String>|
            to_json.ensures((&cookie,), json) && signed_as(signer.key(), json, r);
        assert(cookie_for(cookie, key@, value@, expiration, domain@, path@) && to_json.ensures(
            (&cookie,),
            json,
        ) && signed_as(private_key@, json, r));
    }
    r
}

/// The cookie that a signed-cookie text carries, if its signature holds
/// under the RSA public key `public_key`; `from_json` reads the cookie's
/// JSON text.
pub fn verify_signed_cookie<G: Fn(&str) -> Result<SignedCookie, String>>(
    signed_cookie: &str,
    public_key: &[u8],
    from_json: G,
) -> (r: Result<SignedCookie, CookieError>)
    requires
        forall|s: &str| from_json.requires((s,)),
    ensures
        verified_as(signed_cookie@, public_key@, from_json, r),
{
    let signer = RSASigner::new(Vec::new());
    signer.verify_cookie(signed_cookie, public_key, from_json)
}

} // verus!
