//! Negotiation and header-mutation behaviour, on concrete values.

use simple_http::headers::Headers;
use simple_http::negotiation::{
    ensure_vary_accept_encoding, negotiate, should_compress, weaken_etag, Encoding,
};

fn headers_of(pairs: &[(&str, &str)]) -> Headers {
    let mut h = Headers::new();
    for (n, v) in pairs {
        h.append(n.as_bytes().to_vec(), v.as_bytes().to_vec());
    }
    h
}

fn get<'a>(h: &'a Headers, name: &str) -> Option<&'a Vec<u8>> {
    h.get(name.as_bytes())
}

#[test]
fn negotiate_prefers_brotli_on_equal_weight() {
    let h = headers_of(&[("Accept-Encoding", "gzip, br")]);
    assert_eq!(negotiate(&h), Encoding::Brotli);
    let h = headers_of(&[("Accept-Encoding", "br, gzip")]);
    assert_eq!(negotiate(&h), Encoding::Brotli);
    let h = headers_of(&[("Accept-Encoding", "gzip;q=0.8, br;q=0.8")]);
    assert_eq!(negotiate(&h), Encoding::Brotli);
}

#[test]
fn negotiate_prefers_brotli_on_brotli_favoring_weight() {
    let h = headers_of(&[("Accept-Encoding", "gzip;q=0.5, br;q=0.9")]);
    assert_eq!(negotiate(&h), Encoding::Brotli);
}

#[test]
fn negotiate_picks_gzip_when_it_outweighs_brotli() {
    let h = headers_of(&[("Accept-Encoding", "gzip;q=1.0, br;q=0.4")]);
    assert_eq!(negotiate(&h), Encoding::Gzip);
}

#[test]
fn negotiate_deflate_only_is_identity() {
    let h = headers_of(&[("Accept-Encoding", "deflate")]);
    assert_eq!(negotiate(&h), Encoding::Identity);
}

#[test]
fn negotiate_ignores_unknown_codings() {
    let h = headers_of(&[("Accept-Encoding", "deflate, zstd;q=1.0, gzip;q=0.1")]);
    assert_eq!(negotiate(&h), Encoding::Gzip);
}

#[test]
fn negotiate_without_header_is_identity() {
    let h = headers_of(&[("Host", "example.test")]);
    assert_eq!(negotiate(&h), Encoding::Identity);
}

#[test]
fn negotiate_weight_zero_is_not_acceptable() {
    let h = headers_of(&[("Accept-Encoding", "br;q=0, gzip;q=0")]);
    assert_eq!(negotiate(&h), Encoding::Identity);
    let h = headers_of(&[("Accept-Encoding", "br;q=0, gzip;q=0.001")]);
    assert_eq!(negotiate(&h), Encoding::Gzip);
}

#[test]
fn negotiate_malformed_weight_drops_the_entry() {
    let h = headers_of(&[("Accept-Encoding", "br;q=nope, gzip")]);
    assert_eq!(negotiate(&h), Encoding::Gzip);
}

#[test]
fn negotiate_is_case_insensitive_and_spans_headers() {
    let h = headers_of(&[("Accept-Encoding", "GZIP;q=0.2"), ("Accept-Encoding", "BR")]);
    assert_eq!(negotiate(&h), Encoding::Brotli);
}

#[test]
fn vary_added_when_absent() {
    let mut h = headers_of(&[("Content-Type", "text/plain")]);
    ensure_vary_accept_encoding(&mut h);
    assert_eq!(get(&h, "vary").unwrap().as_slice(), b"Accept-Encoding");
}

#[test]
fn vary_merged_without_duplication() {
    let mut h = headers_of(&[("Vary", "Origin")]);
    ensure_vary_accept_encoding(&mut h);
    assert_eq!(get(&h, "vary").unwrap().as_slice(), b"Accept-Encoding, Origin");
    // a second pass changes nothing: the token is already there
    ensure_vary_accept_encoding(&mut h);
    assert_eq!(get(&h, "vary").unwrap().as_slice(), b"Accept-Encoding, Origin");
}

#[test]
fn vary_idempotent_from_empty() {
    let mut h = Headers::new();
    ensure_vary_accept_encoding(&mut h);
    ensure_vary_accept_encoding(&mut h);
    assert_eq!(h.len(), 1);
    assert_eq!(get(&h, "vary").unwrap().as_slice(), b"Accept-Encoding");
}

#[test]
fn vary_containment_check_ignores_case() {
    let mut h = headers_of(&[("Vary", "ACCEPT-ENCODING, Origin")]);
    ensure_vary_accept_encoding(&mut h);
    assert_eq!(get(&h, "vary").unwrap().as_slice(), b"ACCEPT-ENCODING, Origin");
}

#[test]
fn vary_unreadable_value_is_replaced() {
    let mut h = Headers::new();
    h.append(b"vary".to_vec(), vec![0xffu8, 0x01]);
    ensure_vary_accept_encoding(&mut h);
    assert_eq!(get(&h, "vary").unwrap().as_slice(), b"Accept-Encoding");
}

#[test]
fn etag_weakened_once() {
    let mut h = headers_of(&[("ETag", "\"abc\"")]);
    weaken_etag(&mut h);
    assert_eq!(get(&h, "etag").unwrap().as_slice(), b"W/\"abc\"");
    // idempotent: already weak
    weaken_etag(&mut h);
    assert_eq!(get(&h, "etag").unwrap().as_slice(), b"W/\"abc\"");
}

#[test]
fn etag_absent_is_untouched() {
    let mut h = headers_of(&[("Content-Type", "text/plain")]);
    weaken_etag(&mut h);
    assert!(get(&h, "etag").is_none());
    assert_eq!(h.len(), 1);
}

#[test]
fn content_range_always_blocks_compression() {
    // ten kilobytes of compressible JSON, but a range response
    let mut h = headers_of(&[("Content-Type", "application/json")]);
    h.append(b"content-range".to_vec(), b"bytes 0-99/1000".to_vec());
    assert!(!should_compress(&h));
}

#[test]
fn content_encoding_blocks_compression() {
    let h = headers_of(&[("Content-Type", "text/html"), ("Content-Encoding", "gzip")]);
    assert!(!should_compress(&h));
}

#[test]
fn cache_control_no_transform_blocks_compression() {
    let h = headers_of(&[
        ("Content-Type", "text/html"),
        ("Cache-Control", "max-age=60, No-Transform"),
    ]);
    assert!(!should_compress(&h));
}

#[test]
fn cache_control_unreadable_blocks_compression() {
    let mut h = headers_of(&[("Content-Type", "text/html")]);
    h.append(b"cache-control".to_vec(), vec![0xff, 0xfe]);
    assert!(!should_compress(&h));
}

#[test]
fn missing_or_opaque_content_type_blocks_compression() {
    let h = headers_of(&[("Cache-Control", "max-age=60")]);
    assert!(!should_compress(&h));
    let h = headers_of(&[("Content-Type", "application/octet-stream")]);
    assert!(!should_compress(&h));
}

#[test]
fn compressible_content_types_allow_compression() {
    for ct in [
        "text/plain",
        "Text/HTML; charset=utf-8",
        "application/json",
        "image/svg+xml",
    ] {
        let h = headers_of(&[("Content-Type", ct)]);
        assert!(should_compress(&h), "expected {ct} to compress");
    }
}
