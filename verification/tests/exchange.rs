//! The exchange resource end to end: header writes, body builds with real
//! codecs, reads, cancellation, shutdown, and peer disconnect.

use std::io::Read;

use simple_http::body_builder::OutgoingBody;
use simple_http::errors::HttpError;
use simple_http::headers::Headers;
use simple_http::negotiation::Encoding;
use simple_http::reader_stream::{
    decide_poll, ExternallyAbortableReaderStream, PollOutcome, SourceItem,
};
use simple_http::stream::{
    build_http_stream_resource, HttpRequestReader, HttpStreamResource, ReadEvent, ReadOutcome,
    RequestHead, ShutdownAction, SizeHint, WriteOutcome,
};

fn head(pairs: &[(&str, &str)]) -> RequestHead {
    let mut h = Headers::new();
    for (n, v) in pairs {
        h.append(n.as_bytes().to_vec(), v.as_bytes().to_vec());
    }
    RequestHead { method: b"GET".to_vec(), path_and_query: Some(b"/".to_vec()), headers: h }
}

fn resource(encoding: Encoding) -> HttpStreamResource {
    HttpStreamResource::new(head(&[]), encoding, SizeHint { lower: 0, upper: None })
}

fn response_pairs(extra: &[(&str, &str)]) -> Vec<(Vec<u8>, Vec<u8>)> {
    let mut v: Vec<(Vec<u8>, Vec<u8>)> = vec![(b"Content-Type".to_vec(), b"text/plain".to_vec())];
    for (n, val) in extra {
        v.push((n.as_bytes().to_vec(), val.as_bytes().to_vec()));
    }
    v
}

fn payload(n: usize) -> Vec<u8> {
    (0..n).map(|i| (i % 251) as u8).collect()
}

fn full_body(body: OutgoingBody) -> Vec<u8> {
    match body {
        OutgoingBody::Full(v) => v,
        _ => panic!("expected a full body"),
    }
}

fn gunzip(data: &[u8]) -> Vec<u8> {
    let mut out = Vec::new();
    flate2::read::GzDecoder::new(data).read_to_end(&mut out).unwrap();
    out
}

fn unbrotli(data: &[u8]) -> Vec<u8> {
    let mut out = Vec::new();
    brotli::Decompressor::new(data, 4096).read_to_end(&mut out).unwrap();
    out
}

#[test]
fn gzip_round_trip_reproduces_payload() {
    for n in [20usize, 21, 100000] {
        let data = payload(n);
        let mut r = resource(Encoding::Gzip);
        let parts = r.write_headers(200, response_pairs(&[]), Some(data.clone())).unwrap();
        assert_eq!(
            parts.headers.get(b"content-encoding").unwrap().as_slice(),
            b"gzip",
            "payload of {n} bytes should be gzip-compressed"
        );
        let body = full_body(parts.body);
        assert_ne!(body, data, "the wrapper must not hand the payload back unchanged");
        assert_eq!(gunzip(&body), data);
    }
}

#[test]
fn brotli_round_trip_reproduces_payload() {
    for n in [20usize, 21, 100000] {
        let data = payload(n);
        let mut r = resource(Encoding::Brotli);
        let parts = r.write_headers(200, response_pairs(&[]), Some(data.clone())).unwrap();
        assert_eq!(parts.headers.get(b"content-encoding").unwrap().as_slice(), b"br");
        let body = full_body(parts.body);
        assert_ne!(body, data);
        assert_eq!(unbrotli(&body), data);
    }
}

#[test]
fn short_payloads_pass_through_unchanged() {
    for n in [0usize, 19] {
        let data = payload(n);
        let mut r = resource(Encoding::Gzip);
        let parts = r.write_headers(200, response_pairs(&[]), Some(data.clone())).unwrap();
        assert!(parts.headers.get(b"content-encoding").is_none());
        assert_eq!(full_body(parts.body), data, "{n}-byte payload must pass through");
    }
}

#[test]
fn identity_payload_passes_through_whatever_its_size() {
    let data = payload(4096);
    let mut r = resource(Encoding::Identity);
    let parts = r.write_headers(200, response_pairs(&[]), Some(data.clone())).unwrap();
    assert!(parts.headers.get(b"content-encoding").is_none());
    assert_eq!(full_body(parts.body), data);
}

#[test]
fn compressed_response_weakens_etag_and_drops_content_length() {
    let data = payload(64);
    let mut r = resource(Encoding::Gzip);
    let parts = r
        .write_headers(
            200,
            response_pairs(&[("ETag", "\"v1\""), ("Content-Length", "64")]),
            Some(data),
        )
        .unwrap();
    assert_eq!(parts.headers.get(b"etag").unwrap().as_slice(), b"W/\"v1\"");
    assert!(parts.headers.get(b"content-length").is_none());
    assert_eq!(parts.headers.get(b"vary").unwrap().as_slice(), b"Accept-Encoding");
}

#[test]
fn uncompressed_response_keeps_content_length_but_gains_vary() {
    let data = payload(64);
    let mut r = resource(Encoding::Identity);
    let parts = r
        .write_headers(
            200,
            response_pairs(&[("ETag", "\"v1\""), ("Content-Length", "64")]),
            Some(data),
        )
        .unwrap();
    assert_eq!(parts.headers.get(b"etag").unwrap().as_slice(), b"\"v1\"");
    assert_eq!(parts.headers.get(b"content-length").unwrap().as_slice(), b"64");
    assert_eq!(parts.headers.get(b"vary").unwrap().as_slice(), b"Accept-Encoding");
}

#[test]
fn second_write_headers_fails_already_sent() {
    let mut r = resource(Encoding::Identity);
    assert!(r.write_headers(200, response_pairs(&[]), Some(payload(4))).is_ok());
    let second = r.write_headers(200, response_pairs(&[]), Some(payload(4)));
    assert_eq!(second.unwrap_err(), HttpError::AlreadySent);
    // and again: the failure is stable
    let third = r.write_headers(204, vec![], None);
    assert_eq!(third.unwrap_err(), HttpError::AlreadySent);
}

#[test]
fn invalid_response_headers_are_rejected_before_any_transition() {
    let mut r = resource(Encoding::Identity);
    let bad_name = vec![(b"bad name".to_vec(), b"v".to_vec())];
    assert_eq!(r.write_headers(200, bad_name, None).unwrap_err(), HttpError::InvalidHeaderName);
    let bad_value = vec![(b"x-ok".to_vec(), b"bad\nvalue".to_vec())];
    assert_eq!(r.write_headers(200, bad_value, None).unwrap_err(), HttpError::InvalidHeaderValue);
    // the writer is still fresh: a good write succeeds afterwards
    assert!(r.write_headers(200, response_pairs(&[]), None).is_ok());
}

#[test]
fn streaming_compressed_body_opens_the_writer() {
    let mut r = resource(Encoding::Brotli);
    let parts = r.write_headers(200, response_pairs(&[]), None).unwrap();
    match parts.body {
        OutgoingBody::Stream(Encoding::Brotli, _) => {},
        _ => panic!("expected a streamed compressed body"),
    }
    assert!(r.check_write_allowed().is_ok());
}

#[test]
fn streaming_uncompressed_body_uses_a_channel() {
    let mut r = resource(Encoding::Gzip);
    // an opaque content type: negotiation accepts gzip but the headers refuse
    let hs = vec![(b"content-type".to_vec(), b"application/octet-stream".to_vec())];
    let parts = r.write_headers(200, hs, None).unwrap();
    assert!(matches!(parts.body, OutgoingBody::Channel));
    assert!(r.check_write_allowed().is_ok());
}

#[test]
fn write_before_headers_fails_no_headers() {
    let r = resource(Encoding::Identity);
    assert_eq!(r.check_write_allowed().unwrap_err(), HttpError::NoHeaders);
}

#[test]
fn peer_disconnect_closes_writer_idempotently() {
    let mut r = resource(Encoding::Gzip);
    r.write_headers(200, response_pairs(&[]), None).unwrap();
    assert!(r.check_write_allowed().is_ok());
    // the peer goes away mid-write
    let first = r.apply_write_outcome(WriteOutcome::BrokenPipe);
    assert_eq!(first.unwrap_err(), HttpError::AlreadyCompleted);
    // a second write hits the closed writer and reports the same
    assert_eq!(r.check_write_allowed().unwrap_err(), HttpError::AlreadyCompleted);
    assert_eq!(r.check_write_allowed().unwrap_err(), HttpError::AlreadyCompleted);
}

#[test]
fn other_write_failures_are_fatal() {
    let mut r = resource(Encoding::Gzip);
    r.write_headers(200, response_pairs(&[]), None).unwrap();
    let outcome = r.apply_write_outcome(WriteOutcome::OtherFailure);
    assert_eq!(outcome.unwrap_err(), HttpError::Fatal);
    // the writer was not closed by the fatal error
    assert!(r.check_write_allowed().is_ok());
}

#[test]
fn cancelled_exchange_resolves_pending_read_immediately() {
    let mut r = resource(Encoding::Identity);
    assert!(r.prepare_read());
    r.close();
    // the next resolution is cancelled, whatever the body was about to yield
    let out = r.resolve_read(ReadEvent::Chunk(b"data".to_vec()), 16);
    assert!(matches!(out, ReadOutcome::Cancelled));
    let out = r.resolve_read(ReadEvent::End, 16);
    assert!(matches!(out, ReadOutcome::Cancelled));
}

#[test]
fn read_splits_chunks_at_the_limit() {
    let mut r = resource(Encoding::Identity);
    assert!(r.prepare_read());
    match r.resolve_read(ReadEvent::Chunk(b"abcdef".to_vec()), 4) {
        ReadOutcome::Data { taken, rest } => {
            assert_eq!(taken, b"abcd".to_vec());
            assert_eq!(rest, b"ef".to_vec());
        },
        _ => panic!("expected data"),
    }
    match r.resolve_read(ReadEvent::Chunk(b"ef".to_vec()), 4) {
        ReadOutcome::Data { taken, rest } => {
            assert_eq!(taken, b"ef".to_vec());
            assert!(rest.is_empty());
        },
        _ => panic!("expected data"),
    }
    assert!(matches!(r.resolve_read(ReadEvent::End, 4), ReadOutcome::Eof));
}

#[test]
fn reader_moves_lazily_from_headers_to_body() {
    let mut r = HttpStreamResource::new(
        head(&[("Cookie", "a=1")]),
        Encoding::Identity,
        SizeHint { lower: 0, upper: Some(0) },
    );
    assert!(matches!(r.rd, HttpRequestReader::Headers(_)));
    assert!(r.prepare_read());
    assert!(matches!(r.rd, HttpRequestReader::Body(_)));
    // the headers stay readable after the transition
    let listed = r.headers().unwrap();
    assert_eq!(listed.len(), 1);
    assert_eq!(listed[0].0, b"cookie".to_vec());
}

#[test]
fn request_cookies_are_coalesced_but_nothing_else_is() {
    let r = HttpStreamResource::new(
        head(&[
            ("Accept", "text/html"),
            ("Cookie", "a=1"),
            ("X-Dup", "one"),
            ("Cookie", "b=2; c=3"),
            ("X-Dup", "two"),
            ("Cookie", "d=4"),
        ]),
        Encoding::Identity,
        SizeHint { lower: 0, upper: None },
    );
    let listed = r.headers().unwrap();
    let as_pairs: Vec<(&[u8], &[u8])> =
        listed.iter().map(|(n, v)| (n.as_slice(), v.as_slice())).collect();
    assert_eq!(
        as_pairs,
        vec![
            (b"accept".as_slice(), b"text/html".as_slice()),
            (b"x-dup".as_slice(), b"one".as_slice()),
            (b"x-dup".as_slice(), b"two".as_slice()),
            (b"cookie".as_slice(), b"a=1; b=2; c=3; d=4".as_slice()),
        ]
    );
}

#[test]
fn headers_on_closed_reader_report_in_use() {
    let mut r = resource(Encoding::Identity);
    r.rd = HttpRequestReader::Closed;
    assert_eq!(r.headers().unwrap_err(), HttpError::InUse);
    assert!(!r.prepare_read());
}

#[test]
fn shutdown_is_idempotent_and_closes_every_state() {
    // streaming compressed: close the sink after the flag
    let mut r = resource(Encoding::Gzip);
    r.write_headers(200, response_pairs(&[]), None).unwrap();
    assert!(matches!(r.shutdown(), ShutdownAction::CloseSink));
    assert!(matches!(r.shutdown(), ShutdownAction::Nothing));
    assert_eq!(r.check_write_allowed().unwrap_err(), HttpError::AlreadyCompleted);

    // streaming uncompressed: close the channel cleanly
    let mut r = resource(Encoding::Identity);
    r.write_headers(200, response_pairs(&[]), None).unwrap();
    assert!(matches!(r.shutdown(), ShutdownAction::CloseChannel));
    assert!(matches!(r.shutdown(), ShutdownAction::Nothing));

    // never opened: nothing to do
    let mut r = resource(Encoding::Identity);
    assert!(matches!(r.shutdown(), ShutdownAction::Nothing));
}

#[test]
fn abrupt_source_end_is_an_error_not_a_clean_end() {
    let (stream, _handle) = ExternallyAbortableReaderStream::new();
    // the source ends, but shutdown() was never called
    assert!(matches!(stream.next_outcome(SourceItem::End), PollOutcome::AbruptClose));
}

#[test]
fn shutdown_flag_makes_the_end_clean() {
    let (stream, handle) = ExternallyAbortableReaderStream::new();
    match stream.next_outcome(SourceItem::Data(b"chunk".to_vec())) {
        PollOutcome::Data(d) => assert_eq!(d, b"chunk".to_vec()),
        _ => panic!("expected the chunk through"),
    }
    handle.shutdown();
    assert!(matches!(stream.next_outcome(SourceItem::End), PollOutcome::CleanEnd));
    // firing the flag twice changes nothing
    handle.shutdown();
    assert!(matches!(stream.next_outcome(SourceItem::End), PollOutcome::CleanEnd));
}

#[test]
fn poll_decision_passes_failures_through() {
    assert!(matches!(decide_poll(SourceItem::Failed, false), PollOutcome::Failed));
    assert!(matches!(decide_poll(SourceItem::Failed, true), PollOutcome::Failed));
    assert!(matches!(decide_poll(SourceItem::End, false), PollOutcome::AbruptClose));
    assert!(matches!(decide_poll(SourceItem::End, true), PollOutcome::CleanEnd));
}

#[test]
fn delivery_failure_is_connection_closed() {
    let mut r = resource(Encoding::Identity);
    let _ = r.write_headers(200, response_pairs(&[]), None).unwrap();
    assert!(r.complete_write_headers(true).is_ok());
    assert_eq!(r.complete_write_headers(false).unwrap_err(), HttpError::ConnectionClosed);
}

#[test]
fn accept_builds_resource_method_and_url() {
    let request = head(&[("Host", "example.test:8080"), ("Accept-Encoding", "br")]);
    let (r, method, url) =
        build_http_stream_resource(b"http", request, SizeHint { lower: 3, upper: Some(9) });
    assert_eq!(method, b"GET".to_vec());
    assert_eq!(url, b"http://example.test:8080/".to_vec());
    assert_eq!(r.accept_encoding, Encoding::Brotli);
    assert_eq!(r.size_hint(), (3, Some(9)));
}

#[test]
fn url_falls_back_to_loopback_and_root() {
    let mut request = head(&[]);
    request.path_and_query = None;
    let (_, _, url) =
        build_http_stream_resource(b"http", request, SizeHint { lower: 0, upper: None });
    assert_eq!(url, b"http://127.0.0.1/".to_vec());
}

#[test]
fn error_messages_match_the_wire_texts() {
    assert_eq!(HttpError::AlreadySent.message(), "response headers already sent");
    assert_eq!(HttpError::ConnectionClosed.message(), "connection closed while sending response");
    assert_eq!(HttpError::NoHeaders.message(), "no response headers");
    assert_eq!(HttpError::AlreadyCompleted.message(), "response already completed");
    assert_eq!(HttpError::InUse.message(), "already in use");
}

#[test]
fn upgrade_prompt() {
    // a client that asks for better codings gets its encoding upgraded,
    // and the response says so in Content-Encoding and Vary
    let request = head(&[("Accept-Encoding", "gzip;q=0.7, br;q=0.9")]);
    let (mut r, _, _) =
        build_http_stream_resource(b"http", request, SizeHint { lower: 0, upper: None });
    assert_eq!(r.accept_encoding, Encoding::Brotli);
    let parts = r.write_headers(200, response_pairs(&[]), Some(payload(256))).unwrap();
    assert_eq!(parts.headers.get(b"content-encoding").unwrap().as_slice(), b"br");
    assert_eq!(parts.headers.get(b"vary").unwrap().as_slice(), b"Accept-Encoding");
}

#[test]
fn upgrade_lsp_repl_sleeps() {
    // a stalled write side never blocks the read side: with the writer
    // mid-stream, closing the exchange resolves a pending read at once
    let mut r = resource(Encoding::Gzip);
    r.write_headers(200, response_pairs(&[]), None).unwrap();
    assert!(r.check_write_allowed().is_ok());
    assert!(r.prepare_read());
    r.close();
    assert!(matches!(r.resolve_read(ReadEvent::Chunk(b"late".to_vec()), 8), ReadOutcome::Cancelled));
    // the writer is untouched by the cancellation and still open
    assert!(r.check_write_allowed().is_ok());
}
