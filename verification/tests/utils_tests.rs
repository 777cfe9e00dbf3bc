use cnctd_server::utils::rsa_signer::{CookieError, RSASigner};
use cnctd_server::utils::signed_cookie::SignedCookie;
use cnctd_server::utils::{generate_signed_cookie, parse_range_header, range_bounds, verify_signed_cookie};
use ring::signature::KeyPair;

const PRIVATE_KEY: [u8; 1218] = [
    0x30, 0x82, 0x04, 0xbe, 0x02, 0x01, 0x00, 0x30, 0x0d, 0x06, 0x09, 0x2a, 0x86, 0x48, 0x86, 0xf7,
    0x0d, 0x01, 0x01, 0x01, 0x05, 0x00, 0x04, 0x82, 0x04, 0xa8, 0x30, 0x82, 0x04, 0xa4, 0x02, 0x01,
    0x00, 0x02, 0x82, 0x01, 0x01, 0x00, 0xc8, 0xa7, 0x85, 0x00, 0xa5, 0xa2, 0x50, 0xdb, 0x8e, 0xd3,
    0x6c, 0x85, 0xb8, 0xdc, 0xf8, 0x3c, 0x4b, 0xe1, 0x95, 0x31, 0x14, 0xfa, 0xaa, 0xc7, 0x61, 0x6e,
    0x0e, 0xa2, 0x49, 0x22, 0xfa, 0x6b, 0x7a, 0xb0, 0x1f, 0x85, 0x58, 0x2c, 0x81, 0x5c, 0xc3, 0xbd,
    0xeb, 0x5e, 0xd4, 0x67, 0x62, 0xbc, 0x53, 0x6a, 0xcc, 0xaa, 0x8b, 0x72, 0x70, 0x5b, 0x00, 0xce,
    0xf3, 0x16, 0xb2, 0xec, 0x50, 0x8f, 0xb9, 0x69, 0x72, 0x41, 0xb9, 0xe3, 0x42, 0x38, 0x41, 0x9c,
    0xcc, 0xf7, 0x33, 0x9e, 0xeb, 0x8b, 0x06, 0x21, 0x47, 0xaf, 0x4f, 0x59, 0x32, 0xf6, 0x13, 0xd9,
    0xbc, 0x0a, 0xe7, 0x0b, 0xf6, 0xd5, 0x6d, 0x44, 0x32, 0xe8, 0x3e, 0x13, 0x76, 0x75, 0x87, 0x53,
    0x1b, 0xfa, 0x9d, 0xd5, 0x65, 0x31, 0x74, 0x12, 0x44, 0xbe, 0x75, 0xe8, 0xbc, 0x92, 0x26, 0xb9,
    0xfa, 0x44, 0xb4, 0xb8, 0xa1, 0x01, 0x35, 0x8d, 0x7e, 0x8b, 0xb7, 0x5d, 0x0c, 0x72, 0x4a, 0x4f,
    0x11, 0xec, 0xe7, 0x77, 0x76, 0x26, 0x3f, 0xae, 0xfe, 0x79, 0x61, 0x2e, 0xb1, 0xd7, 0x16, 0x46,
    0xe7, 0x7e, 0x89, 0x82, 0x86, 0x6b, 0xe1, 0x40, 0x0e, 0xaf, 0xc3, 0x58, 0x0d, 0x31, 0x39, 0xb4,
    0x1a, 0xaa, 0x73, 0x80, 0x18, 0x73, 0x72, 0xf2, 0x2e, 0x35, 0xbd, 0x55, 0xb2, 0x88, 0x49, 0x61,
    0x65, 0xc8, 0x81, 0xed, 0x15, 0x4d, 0x58, 0x11, 0x24, 0x5c, 0x52, 0xd5, 0x6c, 0xc0, 0x9d, 0x49,
    0x16, 0xd4, 0xf2, 0xa5, 0x0b, 0xcf, 0x5a, 0xe0, 0xa2, 0x63, 0x7f, 0x4c, 0xfa, 0x6b, 0xf9, 0xda,
    0xaf, 0xc1, 0x13, 0xdb, 0xa8, 0x38, 0x3b, 0x6d, 0xd7, 0xda, 0x6d, 0xd8, 0xdb, 0x22, 0xd8, 0x51,
    0x0a, 0x8d, 0x31, 0x15, 0x98, 0x33, 0x08, 0x90, 0x9a, 0x1a, 0x03, 0x32, 0x51, 0x7a, 0xa5, 0x5e,
    0x89, 0x6e, 0x15, 0x42, 0x49, 0xb3, 0x02, 0x03, 0x01, 0x00, 0x01, 0x02, 0x82, 0x01, 0x00, 0x23,
    0xa4, 0xee, 0x91, 0x90, 0xda, 0xe6, 0xb6, 0x3a, 0x07, 0x00, 0xce, 0x38, 0x6a, 0xb8, 0x86, 0x2d,
    0x8c, 0xa3, 0x2e, 0x16, 0xe5, 0xf8, 0x94, 0x76, 0x90, 0x50, 0x75, 0x2f, 0xbc, 0xd0, 0xf3, 0x6a,
    0xd6, 0x02, 0xa3, 0x73, 0x68, 0x64, 0x8a, 0x90, 0x13, 0x1a, 0xce, 0xbb, 0xb8, 0xa9, 0xe7, 0x7e,
    0x82, 0x08, 0x5d, 0x7b, 0x6c, 0x16, 0xdd, 0x73, 0xa5, 0x4f, 0xb5, 0x86, 0x8f, 0x48, 0x38, 0x5f,
    0xdd, 0x85, 0x78, 0x7b, 0x87, 0x0d, 0x6a, 0x64, 0xed, 0x6f, 0xd3, 0xb2, 0x0d, 0xd7, 0x15, 0xd9,
    0x3e, 0xec, 0x37, 0x0e, 0x47, 0x70, 0x30, 0x1a, 0x92, 0xa1, 0x3e, 0xe6, 0x90, 0x4f, 0x86, 0xd6,
    0x64, 0x39, 0x0e, 0xdc, 0x88, 0x24, 0x90, 0xf8, 0x3b, 0x21, 0x4b, 0x41, 0xe2, 0x78, 0x99, 0x72,
    0x5f, 0x14, 0x6b, 0x29, 0x12, 0xf0, 0xfc, 0x9d, 0x78, 0x88, 0x26, 0xd0, 0x5b, 0xc3, 0xed, 0xdc,
    0x33, 0x36, 0xd4, 0x25, 0x16, 0x30, 0x4d, 0x67, 0xd3, 0xc4, 0x81, 0xdf, 0x92, 0xae, 0xee, 0xb9,
    0x75, 0x2c, 0xd7, 0x39, 0xf7, 0x84, 0x69, 0xb5, 0x2a, 0xed, 0xd6, 0x21, 0x0a, 0x3f, 0x7b, 0x7f,
    0xb2, 0xd5, 0xe8, 0x9e, 0x71, 0x24, 0xea, 0x26, 0xaa, 0xc6, 0x19, 0x62, 0xed, 0x66, 0x30, 0x7a,
    0xeb, 0xcf, 0x5c, 0xe7, 0xd4, 0x48, 0xd2, 0x57, 0x93, 0xea, 0x33, 0x38, 0xb6, 0x2c, 0xce, 0x21,
    0x0d, 0xc1, 0x91, 0x45, 0xc0, 0x7a, 0xd9, 0xff, 0x1d, 0x11, 0x5b, 0x29, 0x94, 0x5c, 0x34, 0x58,
    0x61, 0xd1, 0xee, 0xfe, 0x1b, 0xa4, 0x08, 0x55, 0x31, 0x57, 0xff, 0x05, 0xc7, 0x6c, 0xb6, 0x6c,
    0x25, 0x69, 0x0f, 0xcc, 0x7c, 0x4d, 0x5f, 0x65, 0x12, 0xa1, 0x6a, 0xa0, 0xa6, 0x79, 0xa0, 0x88,
    0x66, 0x52, 0x19, 0x36, 0xc0, 0xb7, 0xf0, 0x89, 0xe3, 0xdd, 0x8d, 0x79, 0x7d, 0x0a, 0xf1, 0x02,
    0x81, 0x81, 0x00, 0xf8, 0x5b, 0xa8, 0xdc, 0x29, 0x50, 0x23, 0x96, 0xee, 0x92, 0x2a, 0xb8, 0x55,
    0x96, 0x13, 0xbc, 0x45, 0xd8, 0xd8, 0xb3, 0x82, 0x02, 0xf8, 0xc8, 0xb8, 0xff, 0x57, 0xb2, 0x86,
    0xf0, 0xad, 0x82, 0xd3, 0xe1, 0xac, 0x7c, 0x56, 0x6f, 0xfe, 0x73, 0x1c, 0xfa, 0xe5, 0x61, 0x9a,
    0xed, 0xdc, 0x4e, 0x6b, 0x76, 0x1b, 0xdc, 0xb2, 0x13, 0x64, 0x70, 0xe3, 0x3d, 0x71, 0x2d, 0x4c,
    0xc7, 0x03, 0xc2, 0x9c, 0x9b, 0x21, 0xb3, 0xe7, 0x96, 0x9e, 0x35, 0xf0, 0x92, 0x5f, 0xad, 0x5b,
    0x2d, 0xdc, 0x7a, 0xba, 0x1c, 0xdb, 0x5c, 0x40, 0x86, 0xef, 0x57, 0x1e, 0xb3, 0xea, 0x34, 0xbb,
    0xb2, 0x5f, 0x4e, 0x18, 0x1d, 0x5f, 0xc1, 0xd1, 0x18, 0x36, 0xdd, 0xa0, 0xbe, 0xfc, 0x2f, 0x1a,
    0x42, 0x68, 0xa4, 0xab, 0x7d, 0x32, 0x78, 0xbc, 0x45, 0xa5, 0x38, 0xb3, 0xd2, 0x34, 0x1d, 0x48,
    0x38, 0x27, 0x17, 0x02, 0x81, 0x81, 0x00, 0xce, 0xd4, 0x17, 0xee, 0x88, 0xc4, 0x01, 0xa0, 0x34,
    0x43, 0x61, 0xf5, 0x31, 0xdc, 0xd7, 0xf0, 0x25, 0x77, 0x30, 0xe4, 0x05, 0xfc, 0xd5, 0x4e, 0xb6,
    0xe4, 0xe5, 0x39, 0x68, 0xe6, 0x5c, 0xe5, 0x60, 0x42, 0xdc, 0x8f, 0xc5, 0xe1, 0x6e, 0x52, 0xe6,
    0xbd, 0xc3, 0xdc, 0x26, 0xec, 0x8a, 0xe9, 0xc3, 0xf8, 0x91, 0xb1, 0xc4, 0x4b, 0x91, 0xfb, 0x11,
    0x63, 0x4a, 0x29, 0xf1, 0x42, 0x44, 0xfd, 0x85, 0x0f, 0xd5, 0x8e, 0x9e, 0x4f, 0x5f, 0x9d, 0xf0,
    0x27, 0x55, 0xa6, 0x19, 0x09, 0x8c, 0xfd, 0x5c, 0x81, 0x95, 0x23, 0x7a, 0x86, 0xd7, 0xc2, 0x47,
    0xf6, 0x3c, 0xad, 0xaf, 0x67, 0xb9, 0x48, 0x95, 0xd6, 0xaa, 0x61, 0x95, 0x3a, 0xdc, 0x91, 0xdc,
    0xb5, 0xc1, 0x8d, 0x95, 0xad, 0xe2, 0xbf, 0x44, 0x6d, 0xd0, 0x65, 0xc1, 0x51, 0x96, 0xb9, 0x6f,
    0xfa, 0x61, 0x56, 0x19, 0x76, 0x93, 0xc5, 0x02, 0x81, 0x81, 0x00, 0xbf, 0xc9, 0x80, 0x87, 0xab,
    0x7b, 0x90, 0x50, 0x30, 0xa1, 0x3d, 0x4e, 0x26, 0x01, 0x83, 0xf2, 0x02, 0xfa, 0x26, 0xb5, 0xd0,
    0x73, 0x5d, 0x0d, 0x1c, 0x17, 0x4a, 0xf0, 0xb9, 0x55, 0xc8, 0x97, 0xdb, 0xe9, 0x4c, 0xda, 0xa3,
    0xa1, 0x4e, 0x9c, 0x34, 0x47, 0xe7, 0xb4, 0xcd, 0x00, 0x5b, 0xfd, 0x4e, 0xec, 0xe1, 0x2d, 0x37,
    0x72, 0xd4, 0x40, 0x7c, 0xaa, 0xe8, 0xe8, 0x33, 0x7f, 0x07, 0xff, 0x54, 0x12, 0x54, 0x1f, 0x6a,
    0x7a, 0x9c, 0x68, 0x49, 0x03, 0xaf, 0xd0, 0xde, 0x35, 0x77, 0x2a, 0x6a, 0xe8, 0x77, 0xd9, 0x30,
    0x97, 0x42, 0xe2, 0x42, 0xfa, 0x6a, 0xa5, 0x18, 0x40, 0xf1, 0x6a, 0x0c, 0x23, 0x3a, 0xdc, 0x20,
    0x0d, 0x13, 0xe9, 0x68, 0x05, 0xb4, 0x16, 0xe7, 0xaf, 0x5a, 0xc1, 0xb7, 0x10, 0x32, 0x56, 0x9c,
    0x05, 0x28, 0x46, 0xb6, 0x4e, 0x60, 0x22, 0x30, 0xaf, 0xf4, 0x37, 0x02, 0x81, 0x80, 0x35, 0xbb,
    0x80, 0x24, 0x26, 0x3f, 0xd5, 0xb4, 0x4b, 0x1f, 0x9e, 0x59, 0x57, 0x04, 0xea, 0xcc, 0xa6, 0xcf,
    0x1a, 0x52, 0x83, 0x03, 0xb6, 0x5e, 0xe6, 0xc0, 0xfc, 0x94, 0x37, 0x9e, 0x71, 0x4f, 0xdd, 0xfc,
    0x40, 0xd4, 0xd1, 0x31, 0xc9, 0xb9, 0x9b, 0xdc, 0x7c, 0xff, 0xba, 0xd5, 0x05, 0x19, 0xca, 0x21,
    0xcf, 0xa8, 0x01, 0x39, 0x28, 0xc9, 0xb3, 0x30, 0xba, 0x59, 0xbf, 0x25, 0xda, 0x4a, 0x8a, 0xc1,
    0x1c, 0x58, 0x1a, 0xe4, 0xc0, 0x10, 0x86, 0x0d, 0x92, 0x00, 0xbe, 0xcc, 0x6e, 0x66, 0x7c, 0x1b,
    0xe6, 0x24, 0xfb, 0x76, 0x00, 0xa3, 0xa6, 0x92, 0x60, 0x1d, 0x37, 0x4e, 0x99, 0x22, 0x34, 0x5b,
    0x3a, 0x94, 0x73, 0x72, 0x81, 0x4f, 0x1b, 0xa9, 0xd4, 0x88, 0xf5, 0xf3, 0xe0, 0xce, 0x93, 0xf6,
    0x7b, 0x87, 0x93, 0xfb, 0xa0, 0x4e, 0xb8, 0xba, 0xb1, 0x82, 0xee, 0xc6, 0x91, 0x89, 0x02, 0x81,
    0x81, 0x00, 0xb2, 0x34, 0x9a, 0x56, 0xb3, 0x97, 0x29, 0xdc, 0x8d, 0xd6, 0x58, 0xab, 0xc1, 0x8d,
    0x9c, 0xdf, 0x07, 0x69, 0x0b, 0xba, 0xb8, 0xc6, 0xa1, 0x93, 0x2d, 0x5c, 0x80, 0x98, 0xe7, 0x37,
    0x92, 0xd2, 0xab, 0xc8, 0xc2, 0xd3, 0x78, 0x04, 0x84, 0x7c, 0x32, 0x3e, 0x51, 0x52, 0x9a, 0x32,
    0x95, 0x5c, 0x3d, 0x04, 0x9f, 0x66, 0x32, 0x40, 0x2e, 0x5d, 0x11, 0x90, 0x2d, 0x15, 0xd7, 0xbb,
    0xe8, 0x42, 0x4c, 0x02, 0xab, 0x54, 0xdd, 0x96, 0xc4, 0x0c, 0x00, 0xd8, 0xff, 0x41, 0xf5, 0x6a,
    0x37, 0x20, 0xb8, 0x43, 0xd4, 0x5c, 0x1b, 0x5e, 0xcb, 0xfc, 0x50, 0xdb, 0x2e, 0x6d, 0x5a, 0x0b,
    0x17, 0xb5, 0xa1, 0x74, 0x3d, 0xe2, 0x1f, 0x6a, 0x61, 0xa5, 0x80, 0x2d, 0xa9, 0x02, 0x71, 0xfb,
    0xda, 0x6e, 0x4c, 0x6d, 0x12, 0xae, 0x33, 0x92, 0x22, 0x52, 0xa9, 0x7f, 0xa9, 0x73, 0x65, 0x3a,
    0xb7, 0xaa,
];

fn public_key() -> Vec<u8> {
    let pair = ring::signature::RsaKeyPair::from_pkcs8(&PRIVATE_KEY).unwrap();
    pair.public_key().as_ref().to_vec()
}

/// A JSON text for a cookie, written out by hand (a test has no serializer
/// for the library's type); it holds no dot when the fields hold none.
fn to_json(c: &SignedCookie) -> Result<String, String> {
    Ok(format!(
        "{{\"key\":\"{}\",\"value\":\"{}\",\"expiration\":{},\"path\":{},\"domain\":{},\"secure\":{},\"http_only\":{}}}",
        c.key,
        c.value,
        c.expiration.map(|e| e.to_string()).unwrap_or("null".to_string()),
        c.path.as_ref().map(|p| format!("\"{}\"", p)).unwrap_or("null".to_string()),
        c.domain.as_ref().map(|p| format!("\"{}\"", p)).unwrap_or("null".to_string()),
        c.secure,
        c.http_only
    ))
}

fn field<'a>(json: &'a str, name: &str) -> &'a str {
    let start = json.find(&format!("\"{}\":", name)).unwrap() + name.len() + 3;
    let rest = &json[start..];
    let end = rest.find(|c| c == ',' || c == '}').unwrap();
    &rest[..end]
}

fn unquote(t: &str) -> Option<String> {
    if t == "null" { None } else { Some(t.trim_matches('"').to_string()) }
}

fn from_json(json: &str) -> Result<SignedCookie, String> {
    if !json.starts_with('{') {
        return Err("not an object".to_string());
    }
    Ok(SignedCookie {
        key: unquote(field(json, "key")).unwrap(),
        value: unquote(field(json, "value")).unwrap(),
        expiration: unquote(field(json, "expiration")).map(|e| e.parse().unwrap()),
        path: unquote(field(json, "path")),
        domain: unquote(field(json, "domain")),
        secure: field(json, "secure") == "true",
        http_only: field(json, "http_only") == "true",
    })
}

#[test]
fn range_header_parsing() {
    assert_eq!(parse_range_header("bytes=0-499".to_string()), Some((0, 499)));
    assert_eq!(parse_range_header("  bytes=10-20\n".to_string()), Some((10, 20)));
    assert_eq!(parse_range_header("bytes=-500".to_string()), None);
    assert_eq!(parse_range_header("bytes=500-".to_string()), None);
    assert_eq!(parse_range_header("bytes=1-x-3".to_string()), Some((1, 3)));
    assert_eq!(parse_range_header("bytes=1-2-3".to_string()), None);
    assert_eq!(parse_range_header("items=0-4".to_string()), None);
    assert_eq!(parse_range_header("bytes=0-4=5".to_string()), None);
    assert_eq!(parse_range_header("bytes = 0-4".to_string()), None);
    assert_eq!(parse_range_header("bytes=+1-+2".to_string()), Some((1, 2)));
}

#[test]
fn range_bounds_cut_at_end_of_file() {
    assert_eq!(range_bounds(1000, (0, 499)), (0, 500));
    assert_eq!(range_bounds(100, (50, 499)), (50, 100));
    assert_eq!(range_bounds(1, (0, 0)), (0, 1));
}

#[test]
fn cookie_builders() {
    let c = SignedCookie::new("session".to_string(), "abc".to_string());
    assert!(c.secure && c.http_only);
    assert_eq!(c.expiration, None);
    let c = c.with_expiration(99).with_path("/".to_string()).with_domain("localhost".to_string());
    assert_eq!(c.expiration, Some(99));
    assert_eq!(c.path.as_deref(), Some("/"));
    assert_eq!(c.domain.as_deref(), Some("localhost"));
    assert_eq!(c.key, "session");
}

#[test]
fn signed_cookie_reads_back() {
    let signed = generate_signed_cookie("session", "abc", &PRIVATE_KEY, 1700000000, "localhost", "/", to_json).unwrap();
    let (json, sig) = signed.split_once('.').unwrap();
    assert!(json.starts_with("{\"key\":\"session\""));
    assert!(sig.chars().all(|c| c.is_ascii_alphanumeric() || c == '-' || c == '_'));
    let cookie = verify_signed_cookie(&signed, &public_key(), from_json).unwrap();
    assert_eq!(cookie.key, "session");
    assert_eq!(cookie.value, "abc");
    assert_eq!(cookie.expiration, Some(1700000000));
    assert_eq!(cookie.domain.as_deref(), Some("localhost"));
    assert_eq!(cookie.path.as_deref(), Some("/"));
}

#[test]
fn signing_is_deterministic() {
    let c = SignedCookie::new("k".to_string(), "v".to_string());
    let signer = RSASigner::new(PRIVATE_KEY.to_vec());
    assert_eq!(signer.sign_cookie(&c, to_json), signer.sign_cookie(&c, to_json));
}

#[test]
fn cookie_with_a_dotted_domain_does_not_read_back() {
    let signed = generate_signed_cookie("session", "abc", &PRIVATE_KEY, 1, "example.com", "/", to_json).unwrap();
    assert_eq!(verify_signed_cookie(&signed, &public_key(), from_json), Err(CookieError::InvalidFormat));
}

#[test]
fn tampered_cookie_is_rejected() {
    let signed = generate_signed_cookie("session", "abc", &PRIVATE_KEY, 1, "localhost", "/", to_json).unwrap();
    let tampered = signed.replacen("abc", "abd", 1);
    assert_eq!(verify_signed_cookie(&tampered, &public_key(), from_json), Err(CookieError::Verify));
    let bad_encoding = format!("{}.%%", signed.split_once('.').unwrap().0);
    assert!(matches!(verify_signed_cookie(&bad_encoding, &public_key(), from_json), Err(CookieError::SignatureDecode(_))));
    assert_eq!(verify_signed_cookie("no-dot-here", &public_key(), from_json), Err(CookieError::InvalidFormat));
}

#[test]
fn unreadable_json_is_a_deserialize_error() {
    let signer = RSASigner::new(PRIVATE_KEY.to_vec());
    let c = SignedCookie::new("k".to_string(), "v".to_string());
    let signed = signer.sign_cookie(&c, |_c: &SignedCookie| Ok("[]".to_string())).unwrap();
    assert_eq!(
        signer.verify_cookie(&signed, &public_key(), from_json),
        Err(CookieError::Deserialize("not an object".to_string()))
    );
}

#[test]
fn bad_key_and_serializer_errors() {
    let c = SignedCookie::new("k".to_string(), "v".to_string());
    let signer = RSASigner::new(vec![1, 2, 3]);
    assert!(matches!(signer.sign_cookie(&c, to_json), Err(CookieError::KeyRejected(_))));
    let signer = RSASigner::new(PRIVATE_KEY.to_vec());
    assert_eq!(
        signer.sign_cookie(&c, |_c: &SignedCookie| Err("nope".to_string())),
        Err(CookieError::Serialize("nope".to_string()))
    );
}

#[test]
fn signer_public_key_checks_its_signatures() {
    let signer = RSASigner::new(PRIVATE_KEY.to_vec());
    let pk = signer.public_key().unwrap();
    assert_eq!(pk, public_key());
    let c = SignedCookie::new("k".to_string(), "v".to_string());
    let signed = signer.sign_cookie(&c, to_json).unwrap();
    assert_eq!(signer.verify_cookie(&signed, &pk, from_json), Ok(c));
    assert!(matches!(RSASigner::new(vec![1, 2, 3]).public_key(), Err(CookieError::KeyRejected(_))));
}
