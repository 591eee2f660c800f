//! One HTTP exchange as a resource: the request reader and response writer
//! state machines, with every decision verified here and every suspension
//! point — polling the request body, sending the response, writing to the
//! encoder or channel — performed by the embedder, which reports the
//! outcome back as an event.

use vstd::prelude::*;

use crate::ascii::{append_bytes, bytes_of, copy_bytes, str_bytes};
use crate::body_builder::HttpResponseWriter;
use crate::errors::HttpError;
use crate::headers::{spec_get, spec_remove, spec_values, Headers, HeadersView};
use crate::negotiation::Encoding;

verus! {

/// What is known in advance about the request body's size, in bytes.
#[derive(Clone, Copy, PartialEq, Eq, Structural, Debug)]
pub struct SizeHint {
    /// The body holds at least this many bytes.
    pub lower: u64,
    /// The body holds at most this many bytes, when an upper bound is
    /// known.
    pub upper: Option<u64>,
}

/// The parts of an incoming request that the exchange reads: its method,
/// its path with the query (absent when the request line carried none), and
/// its headers. The body stays with the embedder and is read event by
/// event.
pub struct RequestHead {
    /// The request method, as ASCII bytes.
    pub method: Vec<u8>,
    /// The path-and-query part of the request target, if any.
    pub path_and_query: Option<Vec<u8>>,
    /// The request headers, names lower-cased.
    pub headers: Headers,
}

/// The read half of an HTTP exchange.
pub enum HttpRequestReader {
    /// Nothing read yet; the whole head is still at hand.
    Headers(RequestHead),
    /// The body is being read; only the headers are kept.
    Body(Headers),
    /// Terminal: reads deliver an empty buffer.
    Closed,
}

/// The name/value pairs of `v`, as byte strings.
pub open spec fn pairs_view(v: Seq<(Vec<u8>, Vec<u8>)>) -> HeadersView {
    Seq::new(v.len(), |i: int| (v[i].0@, v[i].1@))
}

/// Cookie values joined into one header value, separated by `"; "`.
pub open spec fn spec_join_cookies(vs: Seq<Seq<u8>>) -> Seq<u8>
    decreases vs.len(),
{
    if vs.len() == 0 {
        Seq::empty()
    } else if vs.len() == 1 {
        vs[0]
    } else {
        vs[0] + bytes_of("; "@) + spec_join_cookies(vs.drop_first())
    }
}

/// Joining one more value appends a separator and the value.
proof fn lemma_join_push(vs: Seq<Seq<u8>>, y: Seq<u8>)
    requires
        vs.len() >= 1,
    ensures
        spec_join_cookies(vs.push(y)) == spec_join_cookies(vs) + bytes_of("; "@) + y,
    decreases vs.len(),
{
    reveal_with_fuel(spec_join_cookies, 3);
    if vs.len() == 1 {
        assert(vs.push(y)[0] == vs[0]);
        assert(vs.push(y).drop_first() =~~= seq![y]);
        assert(spec_join_cookies(vs.push(y)) =~= spec_join_cookies(vs) + bytes_of("; "@) + y);
    } else {
        assert(vs.push(y).drop_first() =~~= vs.drop_first().push(y));
        lemma_join_push(vs.drop_first(), y);
        assert(spec_join_cookies(vs.push(y)) =~= spec_join_cookies(vs) + bytes_of("; "@) + y);
    }
}

/// What the host runtime sees of the request headers: every non-Cookie
/// entry passes through unchanged, duplicates included, and all Cookie
/// entries are coalesced into one, joined by `"; "`, at the end. (Response
/// Set-Cookie headers take no such treatment anywhere.)
pub open spec fn spec_req_headers(h: HeadersView) -> HeadersView {
    let cookies = spec_values(h, bytes_of("cookie"@));
    let others = spec_remove(h, bytes_of("cookie"@));
    if cookies.len() == 0 {
        others
    } else {
        others.push((bytes_of("cookie"@), spec_join_cookies(cookies)))
    }
}

/// List the request headers for the host runtime, coalescing Cookie
/// entries.
pub fn req_headers(h: &Headers) -> (r: Vec<(Vec<u8>, Vec<u8>)>)
    ensures
        pairs_view(r@) == spec_req_headers(h@),
{
    proof {
        reveal_strlit("cookie");
        reveal_strlit("; ");
    }
    let cookie = str_bytes("cookie");
    let ghost hv = h@;
    let ghost c = bytes_of("cookie"@);
    let mut others: Vec<(Vec<u8>, Vec<u8>)> = Vec::new();
    let mut cookies: Vec<Vec<u8>> = Vec::new();
    proof {
        assert(hv.skip(0) =~= hv);
    }
    let n = h.len();
    let mut i: usize = 0;
    while i < n
        invariant
            i <= n,
            n == hv.len(),
            hv == h@,
            cookie@ == c,
            spec_remove(hv, c) =~= pairs_view(others@) + spec_remove(hv.skip(i as int), c),
            spec_values(hv, c) =~~= cookies.deep_view() + spec_values(hv.skip(i as int), c),
        decreases n - i,
    {
        let ghost pre = hv.skip(i as int);
        proof {
            assert(pre.drop_first() =~= hv.skip(i as int + 1));
            assert(pre[0] == hv[i as int]);
        }
        let ghost oldothers = others@;
        let ghost oldcookies = cookies.deep_view();
        let (name, value) = h.entry_at(i);
        if crate::ascii::bytes_eq(name.as_slice(), cookie) {
            cookies.push(copy_bytes(value.as_slice()));
            proof {
                assert(cookies.deep_view() =~~= oldcookies.push(pre[0].1));
                assert(oldcookies.push(pre[0].1) + spec_values(hv.skip(i as int + 1), c)
                    =~~= oldcookies + (seq![pre[0].1] + spec_values(pre.drop_first(), c)));
            }
        } else {
            others.push((copy_bytes(name.as_slice()), copy_bytes(value.as_slice())));
            proof {
                assert(pairs_view(others@) =~= pairs_view(oldothers).push(pre[0]));
                assert(pairs_view(oldothers).push(pre[0]) + spec_remove(hv.skip(i as int + 1), c)
                    =~= pairs_view(oldothers) + (seq![pre[0]] + spec_remove(pre.drop_first(), c)));
            }
        }
        i = i + 1;
    }
    proof {
        assert(hv.skip(hv.len() as int) =~= Seq::<(Seq<u8>, Seq<u8>)>::empty());
        assert(pairs_view(others@) =~= spec_remove(hv, c));
        assert(cookies.deep_view() =~~= spec_values(hv, c));
    }
    if cookies.len() == 0 {
        proof {
            assert(spec_values(hv, c).len() == 0);
        }
        return others;
    }
    let mut joined = copy_bytes(cookies[0].as_slice());
    proof {
        assert(cookies.deep_view().take(1) =~~= seq![cookies.deep_view()[0]]);
        assert(joined@ == spec_join_cookies(cookies.deep_view().take(1)));
    }
    let mut j: usize = 1;
    while j < cookies.len()
        invariant
            1 <= j <= cookies@.len(),
            cookies.deep_view() =~~= spec_values(hv, c),
            hv == h@,
            joined@ == spec_join_cookies(cookies.deep_view().take(j as int)),
        decreases cookies@.len() - j,
    {
        proof {
            reveal_strlit("; ");
        }
        let sep = str_bytes("; ");
        append_bytes(&mut joined, sep);
        append_bytes(&mut joined, cookies[j].as_slice());
        proof {
            lemma_join_push(cookies.deep_view().take(j as int), cookies.deep_view()[j as int]);
            assert(cookies.deep_view().take(j as int).push(cookies.deep_view()[j as int])
                =~~= cookies.deep_view().take(j as int + 1));
        }
        j = j + 1;
    }
    proof {
        assert(cookies.deep_view().take(cookies@.len() as int) =~~= cookies.deep_view());
    }
    let mut r = others;
    let ghost oldr = r@;
    r.push((copy_bytes(cookie), joined));
    proof {
        assert(crate::ascii::spec_lower(c) =~= c);
        assert(pairs_view(r@) =~= pairs_view(oldr).push((c, spec_join_cookies(spec_values(hv, c)))));
        assert(pairs_view(r@) =~= spec_req_headers(hv));
    }
    r
}

/// The URL the host runtime sees: scheme, `://`, the Host header (or the
/// loopback address when the request carried none), and the request path
/// with its query (or `/` when absent).
pub open spec fn spec_req_url(scheme: Seq<u8>, h: HeadersView, pq: Option<Seq<u8>>) -> Seq<u8> {
    let host = match spec_get(h, bytes_of("host"@)) {
        Some(v) => v,
        None => bytes_of("127.0.0.1"@),
    };
    let path = match pq {
        Some(p) => p,
        None => bytes_of("/"@),
    };
    scheme + bytes_of("://"@) + host + path
}

/// Build the request's URL for the host runtime.
pub fn req_url(head: &RequestHead, scheme: &[u8]) -> (r: Vec<u8>)
    ensures
        r@ == spec_req_url(
            scheme@,
            head.headers@,
            match head.path_and_query {
                Some(p) => Some(p@),
                None => None,
            },
        ),
{
    proof {
        reveal_strlit("host");
        reveal_strlit("127.0.0.1");
        reveal_strlit("://");
        reveal_strlit("/");
    }
    let mut r = copy_bytes(scheme);
    append_bytes(&mut r, str_bytes("://"));
    match head.headers.get(str_bytes("host")) {
        Some(v) => {
            append_bytes(&mut r, v.as_slice());
        },
        None => {
            append_bytes(&mut r, str_bytes("127.0.0.1"));
        },
    }
    match &head.path_and_query {
        Some(p) => {
            append_bytes(&mut r, p.as_slice());
        },
        None => {
            append_bytes(&mut r, str_bytes("/"));
        },
    }
    r
}

/// A byte a header name may hold: the HTTP/1.1 token characters, both
/// letter cases.
pub open spec fn spec_valid_name_byte(b: u8) -> bool {
    ||| b == 33  // !
    ||| b == 34  // "
    ||| 35 <= b <= 39  // # $ % & '
    ||| b == 42 || b == 43  // * +
    ||| b == 45 || b == 46  // - .
    ||| 48 <= b <= 57  // digits
    ||| 65 <= b <= 90  // upper-case letters, stored lower-cased
    ||| 94 <= b <= 96  // ^ _ `
    ||| 97 <= b <= 122  // lower-case letters
    ||| b == 124 || b == 126  // | ~
}

/// A valid header name: non-empty, token characters only.
pub open spec fn spec_valid_header_name(s: Seq<u8>) -> bool {
    s.len() > 0 && forall|i: int| 0 <= i < s.len() ==> spec_valid_name_byte(#[trigger] s[i])
}

/// A valid header value byte: anything but a control character, with
/// horizontal tab allowed.
pub open spec fn spec_valid_value_byte(b: u8) -> bool {
    b >= 32 && b != 127 || b == 9
}

/// A valid header value: no control characters.
pub open spec fn spec_valid_header_value(s: Seq<u8>) -> bool {
    forall|i: int| 0 <= i < s.len() ==> spec_valid_value_byte(#[trigger] s[i])
}

/// Is `s` a valid header name?
pub fn valid_header_name(s: &[u8]) -> (r: bool)
    ensures
        r == spec_valid_header_name(s@),
{
    if s.len() == 0 {
        return false;
    }
    let mut i: usize = 0;
    while i < s.len()
        invariant
            i <= s.len(),
            forall|j: int| 0 <= j < i ==> spec_valid_name_byte(#[trigger] s@[j]),
        decreases s.len() - i,
    {
        let b = s[i];
        let ok = b == 33 || b == 34 || (35 <= b && b <= 39) || b == 42 || b == 43 || b == 45 || b
            == 46 || (48 <= b && b <= 57) || (65 <= b && b <= 90) || (94 <= b && b <= 96) || (97
            <= b && b <= 122) || b == 124 || b == 126;
        if !ok {
            return false;
        }
        i = i + 1;
    }
    true
}

/// Is `s` a valid header value?
pub fn valid_header_value(s: &[u8]) -> (r: bool)
    ensures
        r == spec_valid_header_value(s@),
{
    let mut i: usize = 0;
    while i < s.len()
        invariant
            i <= s.len(),
            forall|j: int| 0 <= j < i ==> spec_valid_value_byte(#[trigger] s@[j]),
        decreases s.len() - i,
    {
        let b = s[i];
        if !(b >= 32 && b != 127 || b == 9) {
            return false;
        }
        i = i + 1;
    }
    true
}

/// The error on which accepting a list of response headers stops: an
/// invalid name or, the name being valid, an invalid value — at the first
/// offending pair.
pub open spec fn spec_first_bad(pairs: HeadersView) -> Option<HttpError>
    decreases pairs.len(),
{
    if pairs.len() == 0 {
        None
    } else if !spec_valid_header_name(pairs[0].0) {
        Some(HttpError::InvalidHeaderName)
    } else if !spec_valid_header_value(pairs[0].1) {
        Some(HttpError::InvalidHeaderValue)
    } else {
        spec_first_bad(pairs.drop_first())
    }
}

/// The accepted headers, names lower-cased, order kept.
pub open spec fn spec_canonical(pairs: HeadersView) -> HeadersView {
    Seq::new(pairs.len(), |i: int| (crate::ascii::spec_lower(pairs[i].0), pairs[i].1))
}

/// The encoding allows compression at all.
pub open spec fn spec_accepts_compression(e: Encoding) -> bool {
    e is Brotli || e is Gzip
}

/// A payload small enough is not worth compressing; an absent (streamed)
/// payload always may be.
pub open spec fn spec_payload_allows(data: Option<Seq<u8>>) -> bool {
    match data {
        Some(d) => d.len() >= MIN_COMPRESS_SIZE as int,
        None => true,
    }
}

/// A literal payload shorter than this many bytes is never compressed.
pub const MIN_COMPRESS_SIZE: usize = 20;

/// The exchange compresses its response exactly when the client accepts a
/// coding, the payload is absent or long enough, and the headers allow it.
pub open spec fn spec_compressing(h1: HeadersView, e: Encoding, data: Option<Seq<u8>>) -> bool {
    spec_accepts_compression(e) && spec_payload_allows(data)
        && crate::negotiation::spec_should_compress(h1)
}

/// The Content-Encoding token of a coding.
pub open spec fn spec_coding_token(e: Encoding) -> Seq<u8> {
    if e is Brotli {
        bytes_of("br"@)
    } else {
        bytes_of("gzip"@)
    }
}

/// The headers the response goes out with, `h1` being the accepted headers
/// with Vary merged: when compressing, the ETag is weakened, Content-Length
/// dropped (the transport recomputes it), and Content-Encoding set to the
/// chosen token; otherwise `h1` unchanged.
pub open spec fn spec_response_headers(h1: HeadersView, e: Encoding, compressing: bool) -> HeadersView {
    if compressing {
        spec_remove(
            crate::negotiation::spec_weaken_etag(h1),
            bytes_of("content-length"@),
        ).push((bytes_of("content-encoding"@), spec_coding_token(e)))
    } else {
        h1
    }
}

/// A response ready to deliver: the status, the final headers, and the
/// outgoing body.
#[derive(Debug)]
pub struct ResponseParts {
    /// The response status code.
    pub status: u16,
    /// The response headers, mutations applied.
    pub headers: Headers,
    /// The outgoing body.
    pub body: crate::body_builder::OutgoingBody,
}

/// The event the embedder reports after polling the request body once.
pub enum ReadEvent {
    /// The body yielded a (possibly empty) chunk.
    Chunk(Vec<u8>),
    /// The body is exhausted.
    End,
    /// The body failed.
    Failed,
    /// The poll was cancelled before anything arrived.
    Cancelled,
}

/// What one read delivers.
pub enum ReadOutcome {
    /// Up to `limit` bytes taken off the chunk's front, and the rest of the
    /// chunk, which goes back to the front of the body unread.
    Data { taken: Vec<u8>, rest: Vec<u8> },
    /// The body's end: the read delivers an empty buffer.
    Eof,
    /// The read resolved as cancelled: no data, not an error.
    Cancelled,
    /// The body failed; the failure propagates.
    Failed,
}

/// What the embedder reports after performing one body write.
pub enum WriteOutcome {
    /// The bytes were written and flushed.
    Done,
    /// The peer disconnected (a broken-pipe-class failure).
    BrokenPipe,
    /// Any other transport failure.
    OtherFailure,
}

/// What `shutdown` asks the embedder to do after the state change.
pub enum ShutdownAction {
    /// Close the streaming encoder's sink; the shutdown flag is already
    /// fired, so the stream will end cleanly.
    CloseSink,
    /// Close the body channel cleanly (not by aborting it).
    CloseChannel,
    /// Nothing: there was no open body.
    Nothing,
}

/// One HTTP exchange: the reader and writer state machines, the negotiated
/// encoding, the cancellation flag, and the request body's size hint.
///
/// The embedder serializes reads against reads and writes against writes on
/// one exchange, and owns the transport handles beside these states.
pub struct HttpStreamResource {
    /// The read half.
    pub rd: HttpRequestReader,
    /// The write half.
    pub wr: HttpResponseWriter,
    /// The encoding negotiated from the request's Accept-Encoding.
    pub accept_encoding: Encoding,
    /// Fired by `close`: a pending read resolves as cancelled.
    pub cancelled: bool,
    /// The request body's size hint.
    pub size: SizeHint,
}

impl HttpStreamResource {
    /// A fresh exchange over one request.
    pub fn new(request: RequestHead, accept_encoding: Encoding, size: SizeHint) -> (r:
        HttpStreamResource)
        ensures
            r.rd matches HttpRequestReader::Headers(q) && q == request,
            r.wr is Headers,
            r.accept_encoding == accept_encoding,
            !r.cancelled,
            r.size == size,
    {
        HttpStreamResource {
            rd: HttpRequestReader::Headers(request),
            wr: HttpResponseWriter::Headers,
            accept_encoding,
            cancelled: false,
            size,
        }
    }

    /// The request body's size hint, lower and optional upper bound.
    pub fn size_hint(&self) -> (r: (u64, Option<u64>))
        ensures
            r.0 == self.size.lower,
            r.1 == self.size.upper,
    {
        (self.size.lower, self.size.upper)
    }

    /// Fire the cancellation handle: any pending read resolves as
    /// cancelled. Closing does not shut the writer down; the owner calls
    /// `shutdown` when discarding the exchange to avoid a truncated body.
    pub fn close(&mut self)
        ensures
            final(self).cancelled,
            final(self).rd == old(self).rd,
            final(self).wr == old(self).wr,
            final(self).accept_encoding == old(self).accept_encoding,
            final(self).size == old(self).size,
    {
        self.cancelled = true;
    }

    /// The request headers for the host runtime, Cookie entries coalesced,
    /// from whichever reader state holds them.
    pub fn headers(&self) -> (r: Result<Vec<(Vec<u8>, Vec<u8>)>, HttpError>)
        ensures
            match self.rd {
                HttpRequestReader::Headers(q) => r matches Ok(v) && pairs_view(v@)
                    == spec_req_headers(q.headers@),
                HttpRequestReader::Body(h) => r matches Ok(v) && pairs_view(v@) == spec_req_headers(
                    h@,
                ),
                HttpRequestReader::Closed => r == Err::<Vec<(Vec<u8>, Vec<u8>)>, HttpError>(
                    HttpError::InUse,
                ),
            },
    {
        match &self.rd {
            HttpRequestReader::Headers(q) => Ok(req_headers(&q.headers)),
            HttpRequestReader::Body(h) => Ok(req_headers(h)),
            HttpRequestReader::Closed => Err(HttpError::InUse),
        }
    }

    /// Make the reader ready for a body read, moving lazily out of
    /// `Headers` on the first read. `false` means the reader is closed and
    /// the read delivers an empty buffer without touching the body.
    pub fn prepare_read(&mut self) -> (r: bool)
        ensures
            final(self).wr == old(self).wr,
            final(self).accept_encoding == old(self).accept_encoding,
            final(self).cancelled == old(self).cancelled,
            final(self).size == old(self).size,
            match old(self).rd {
                HttpRequestReader::Headers(q) => r && (final(self).rd
                    matches HttpRequestReader::Body(h) && h == q.headers),
                HttpRequestReader::Body(_) => r && final(self).rd == old(self).rd,
                HttpRequestReader::Closed => !r && final(self).rd == old(self).rd,
            },
    {
        let mut taken = HttpRequestReader::Closed;
        core::mem::swap(&mut self.rd, &mut taken);
        match taken {
            HttpRequestReader::Headers(q) => {
                self.rd = HttpRequestReader::Body(q.headers);
                true
            },
            HttpRequestReader::Body(h) => {
                self.rd = HttpRequestReader::Body(h);
                true
            },
            HttpRequestReader::Closed => {
                self.rd = HttpRequestReader::Closed;
                false
            },
        }
    }

    /// Resolve one read from the event the embedder observed. A fired
    /// cancellation always wins: the read resolves as cancelled, never
    /// hangs. A chunk is split at `limit`: the front is delivered, the rest
    /// goes back to the body, and nothing is lost or reordered.
    pub fn resolve_read(&mut self, event: ReadEvent, limit: usize) -> (r: ReadOutcome)
        ensures
            *final(self) == *old(self),
            old(self).cancelled ==> r is Cancelled,
            !old(self).cancelled ==> match event {
                ReadEvent::Chunk(c) => {
                    let k = vstd::math::min(limit as int, c@.len() as int);
                    r matches ReadOutcome::Data { taken, rest } && taken@ == c@.take(k) && rest@
                        == c@.skip(k) && taken@ + rest@ == c@
                },
                ReadEvent::End => r is Eof,
                ReadEvent::Failed => r is Failed,
                ReadEvent::Cancelled => r is Cancelled,
            },
    {
        if self.cancelled {
            return ReadOutcome::Cancelled;
        }
        match event {
            ReadEvent::Chunk(c) => {
                let k = if limit < c.len() {
                    limit
                } else {
                    c.len()
                };
                let mut taken: Vec<u8> = Vec::new();
                let mut i: usize = 0;
                while i < k
                    invariant
                        i <= k,
                        k <= c@.len(),
                        taken@ =~= c@.subrange(0, i as int),
                    decreases k - i,
                {
                    taken.push(c[i]);
                    i = i + 1;
                }
                let rest = crate::ascii::tail_bytes(c.as_slice(), k);
                proof {
                    assert(taken@ =~= c@.take(k as int));
                    assert(taken@ + rest@ =~= c@);
                }
                ReadOutcome::Data { taken, rest }
            },
            ReadEvent::End => ReadOutcome::Eof,
            ReadEvent::Failed => ReadOutcome::Failed,
            ReadEvent::Cancelled => ReadOutcome::Cancelled,
        }
    }

    /// The synchronous check before any body write: no headers yet means
    /// `NoHeaders`, a closed writer means `AlreadyCompleted`, an open body
    /// may proceed.
    pub fn check_write_allowed(&self) -> (r: Result<(), HttpError>)
        ensures
            match self.wr {
                HttpResponseWriter::Headers => r == Err::<(), HttpError>(HttpError::NoHeaders),
                HttpResponseWriter::Closed => r == Err::<(), HttpError>(
                    HttpError::AlreadyCompleted,
                ),
                _ => r is Ok,
            },
    {
        match &self.wr {
            HttpResponseWriter::Headers => Err(HttpError::NoHeaders),
            HttpResponseWriter::Closed => Err(HttpError::AlreadyCompleted),
            _ => Ok(()),
        }
    }

    /// Apply the outcome of one body write. A peer disconnect is expected,
    /// not exceptional: it forces the writer to `Closed` and reports
    /// `AlreadyCompleted`, and every later write reports the same. Any
    /// other failure is fatal and propagates.
    pub fn apply_write_outcome(&mut self, outcome: WriteOutcome) -> (r: Result<(), HttpError>)
        requires
            old(self).wr is Body || old(self).wr is BodyUncompressed,
        ensures
            final(self).rd == old(self).rd,
            final(self).accept_encoding == old(self).accept_encoding,
            final(self).cancelled == old(self).cancelled,
            final(self).size == old(self).size,
            match outcome {
                WriteOutcome::Done => r is Ok && final(self).wr == old(self).wr,
                WriteOutcome::BrokenPipe => r == Err::<(), HttpError>(HttpError::AlreadyCompleted)
                    && final(self).wr is Closed,
                WriteOutcome::OtherFailure => r == Err::<(), HttpError>(HttpError::Fatal)
                    && final(self).wr == old(self).wr,
            },
    {
        match outcome {
            WriteOutcome::Done => Ok(()),
            WriteOutcome::BrokenPipe => {
                self.wr = HttpResponseWriter::Closed;
                Err(HttpError::AlreadyCompleted)
            },
            WriteOutcome::OtherFailure => Err(HttpError::Fatal),
        }
    }

    /// Shut the writer down, idempotently. A streaming body fires its
    /// shutdown flag here, before the embedder closes the sink, so the
    /// stream's end is clean rather than abrupt; an uncompressed body's
    /// channel is closed cleanly, not aborted. The writer always ends
    /// `Closed`.
    pub fn shutdown(&mut self) -> (r: ShutdownAction)
        ensures
            final(self).wr is Closed,
            final(self).rd == old(self).rd,
            final(self).accept_encoding == old(self).accept_encoding,
            final(self).cancelled == old(self).cancelled,
            final(self).size == old(self).size,
            match old(self).wr {
                HttpResponseWriter::Body { .. } => r is CloseSink,
                HttpResponseWriter::BodyUncompressed => r is CloseChannel,
                _ => r is Nothing,
            },
    {
        let mut taken = HttpResponseWriter::Closed;
        core::mem::swap(&mut self.wr, &mut taken);
        match taken {
            HttpResponseWriter::Body { shutdown_handle } => {
                shutdown_handle.shutdown();
                ShutdownAction::CloseSink
            },
            HttpResponseWriter::BodyUncompressed => ShutdownAction::CloseChannel,
            _ => ShutdownAction::Nothing,
        }
    }


    /// Write the response head: legal exactly once, from writer state
    /// `Headers`. The given headers are validated and canonicalised, Vary
    /// gains `Accept-Encoding`, and when negotiation and the headers allow
    /// compression the compression side effects are applied and the body
    /// built accordingly. The embedder delivers the returned parts over the
    /// one-shot response channel and reports the delivery to
    /// `complete_write_headers`.
    pub fn write_headers(
        &mut self,
        status: u16,
        headers: Vec<(Vec<u8>, Vec<u8>)>,
        data: Option<Vec<u8>>,
    ) -> (r: Result<ResponseParts, HttpError>)
        ensures
            !(old(self).wr is Headers) ==> r == Err::<ResponseParts, HttpError>(
                HttpError::AlreadySent,
            ) && *final(self) == *old(self),
            old(self).wr is Headers ==> ({
                let pv = pairs_view(headers@);
                let dv = crate::body_builder::spec_data_view(data);
                let h1 = crate::negotiation::spec_ensure_vary(spec_canonical(pv));
                let e = old(self).accept_encoding;
                let compressing = spec_compressing(h1, e, dv);
                match spec_first_bad(pv) {
                    Some(err) => r == Err::<ResponseParts, HttpError>(err) && *final(self) == *old(
                        self,
                    ),
                    None => {
                        &&& (r matches Ok(parts) ==> parts.status == status && parts.headers@
                            == spec_response_headers(h1, e, compressing)
                            && crate::body_builder::spec_body_matches(
                            dv,
                            compressing,
                            e,
                            final(self).wr,
                            parts.body,
                        ) && final(self).rd == old(self).rd && final(self).accept_encoding == e
                            && final(self).cancelled == old(self).cancelled && final(self).size
                            == old(self).size)
                        &&& (r matches Err(err) ==> err is Fatal && *final(self) == *old(self)
                            && dv is Some && compressing)
                        &&& (!(dv is Some && compressing) ==> r is Ok)
                    },
                }
            }),
    {
        proof {
            reveal_strlit("content-length");
            reveal_strlit("content-encoding");
            reveal_strlit("br");
            reveal_strlit("gzip");
        }
        match &self.wr {
            HttpResponseWriter::Headers => {},
            _ => {
                return Err(HttpError::AlreadySent);
            },
        }
        let ghost pv = pairs_view(headers@);
        let ghost dv = crate::body_builder::spec_data_view(data);
        let mut hmap = Headers::new();
        let n = headers.len();
        let mut i: usize = 0;
        proof {
            assert(pv.skip(0) =~= pv);
            assert(hmap@ =~= spec_canonical(pv).take(0));
        }
        while i < n
            invariant
                i <= n,
                n == headers@.len(),
                pv == pairs_view(headers@),
                dv == crate::body_builder::spec_data_view(data),
                self == old(self),
                old(self).wr is Headers,
                hmap.wf(),
                hmap@ =~= spec_canonical(pv).take(i as int),
                spec_first_bad(pv) == spec_first_bad(pv.skip(i as int)),
            decreases n - i,
        {
            let ghost pre = pv.skip(i as int);
            proof {
                assert(pre.drop_first() =~= pv.skip(i as int + 1));
                assert(pre[0] == pv[i as int]);
            }
            let (name, value) = (&headers[i].0, &headers[i].1);
            if !valid_header_name(name.as_slice()) {
                return Err(HttpError::InvalidHeaderName);
            }
            if !valid_header_value(value.as_slice()) {
                return Err(HttpError::InvalidHeaderValue);
            }
            let ghost oldmap = hmap@;
            hmap.append(copy_bytes(name.as_slice()), copy_bytes(value.as_slice()));
            proof {
                assert(hmap@ =~= oldmap.push(
                    (crate::ascii::spec_lower(pv[i as int].0), pv[i as int].1),
                ));
                assert(hmap@ =~= spec_canonical(pv).take(i as int + 1));
            }
            i = i + 1;
        }
        proof {
            assert(pv.skip(pv.len() as int) =~= Seq::<(Seq<u8>, Seq<u8>)>::empty());
            assert(hmap@ =~= spec_canonical(pv));
        }
        crate::negotiation::ensure_vary_accept_encoding(&mut hmap);
        let ghost h1 = crate::negotiation::spec_ensure_vary(spec_canonical(pv));
        let accepts = match self.accept_encoding {
            Encoding::Brotli => true,
            Encoding::Gzip => true,
            Encoding::Identity => false,
        };
        let size_ok = match &data {
            Some(d) => d.len() >= MIN_COMPRESS_SIZE,
            None => true,
        };
        let compressing = accepts && size_ok && crate::negotiation::should_compress(&hmap);
        proof {
            assert(compressing == spec_compressing(h1, self.accept_encoding, dv));
        }
        if compressing {
            crate::negotiation::weaken_etag(&mut hmap);
            hmap.remove(str_bytes("content-length"));
            let token = match self.accept_encoding {
                Encoding::Brotli => str_bytes("br"),
                _ => str_bytes("gzip"),
            };
            let ghost beforece = hmap@;
            hmap.append(copy_bytes(str_bytes("content-encoding")), copy_bytes(token));
            proof {
                assert(crate::ascii::spec_lower(bytes_of("content-encoding"@)) =~= bytes_of(
                    "content-encoding"@,
                ));
                assert(hmap@ =~= spec_response_headers(h1, self.accept_encoding, true));
            }
        }
        match crate::body_builder::http_response(data, compressing, self.accept_encoding) {
            Err(e) => Err(e),
            Ok((new_wr, body)) => {
                self.wr = new_wr;
                Ok(ResponseParts { status, headers: hmap, body })
            },
        }
    }
    /// Report the delivery of the response built by `write_headers`: the
    /// receiver being gone is `ConnectionClosed`.
    pub fn complete_write_headers(&self, delivered: bool) -> (r: Result<(), HttpError>)
        ensures
            delivered ==> r is Ok,
            !delivered ==> r == Err::<(), HttpError>(HttpError::ConnectionClosed),
    {
        if delivered {
            Ok(())
        } else {
            Err(HttpError::ConnectionClosed)
        }
    }
}

/// Build the exchange resource for one accepted request, together with the
/// method and URL handed to the host runtime. The encoding is negotiated
/// here, from the request's own Accept-Encoding headers.
pub fn build_http_stream_resource(scheme: &[u8], request: RequestHead, size: SizeHint) -> (r: (
    HttpStreamResource,
    Vec<u8>,
    Vec<u8>,
))
    ensures
        r.0.rd matches HttpRequestReader::Headers(q) && q == request,
        r.0.wr is Headers,
        !r.0.cancelled,
        r.0.size == size,
        r.0.accept_encoding == crate::negotiation::spec_negotiate(request.headers@),
        r.1@ == request.method@,
        r.2@ == spec_req_url(
            scheme@,
            request.headers@,
            match request.path_and_query {
                Some(p) => Some(p@),
                None => None::<Seq<u8>>,
            },
        ),
{
    let accept_encoding = crate::negotiation::negotiate(&request.headers);
    let method = copy_bytes(request.method.as_slice());
    let url = req_url(&request, scheme);
    let stream = HttpStreamResource::new(request, accept_encoding, size);
    (stream, method, url)
}

/// The header write happens exactly once: a successful `write_headers`
/// leaves the writer in a state other than `Headers` — `Closed`, `Body` or
/// `BodyUncompressed`, as the body demands — and `write_headers` fails with
/// `AlreadySent` from every such state, so a second header write on the
/// same exchange must fail `AlreadySent`.
pub proof fn lemma_write_headers_once(
    dv: Option<Seq<u8>>,
    compressing: bool,
    e: Encoding,
    w: HttpResponseWriter,
    b: crate::body_builder::OutgoingBody,
)
    requires
        crate::body_builder::spec_body_matches(dv, compressing, e, w, b),
    ensures
        !(w is Headers),
{
}

/// The writer state after one body write's outcome: a broken pipe forces
/// `Closed`; everything else leaves the state alone.
pub open spec fn spec_after_write(w: HttpResponseWriter, outcome: WriteOutcome) -> HttpResponseWriter {
    match outcome {
        WriteOutcome::BrokenPipe => HttpResponseWriter::Closed,
        _ => w,
    }
}

/// The check every body write makes first: `NoHeaders` before the header
/// write, `AlreadyCompleted` once the writer is closed.
pub open spec fn spec_write_refusal(w: HttpResponseWriter) -> Option<HttpError> {
    match w {
        HttpResponseWriter::Headers => Some(HttpError::NoHeaders),
        HttpResponseWriter::Closed => Some(HttpError::AlreadyCompleted),
        _ => None,
    }
}

/// Peer disconnect is an idempotent failure: a broken pipe on an open body
/// writer forces it `Closed` (and the write reports `AlreadyCompleted`),
/// and from then on every further body write reports
/// `AlreadyCompleted` again, whatever outcome any of them had.
pub proof fn lemma_peer_disconnect_idempotent(w: HttpResponseWriter)
    requires
        w is Body || w is BodyUncompressed,
    ensures
        spec_write_refusal(spec_after_write(w, WriteOutcome::BrokenPipe)) == Some(
            HttpError::AlreadyCompleted,
        ),
        forall|o: WriteOutcome| #[trigger]
            spec_write_refusal(spec_after_write(spec_after_write(w, WriteOutcome::BrokenPipe), o))
                == Some(HttpError::AlreadyCompleted),
{
}

} // verus!
