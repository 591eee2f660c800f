//! Building the outgoing response body and the matching writer state.
//!
//! A pre-buffered payload is finished here, compressed in memory when
//! negotiation chose a coding. A streamed body cannot be buffered: the
//! embedder materialises it as a bounded pipe feeding a streaming encoder
//! (compressed) or as a push channel (uncompressed), as the returned
//! description says, because compression of unbounded bodies must be
//! incremental while outgoing bodies are pull-based.

use vstd::prelude::*;

use crate::compress::{brotli_compress, brotli_of, gzip_compress, gzip_of};
use crate::errors::HttpError;
use crate::negotiation::Encoding;
use crate::reader_stream::{ExternallyAbortableReaderStream, ShutdownHandle};

verus! {

/// The write half of an HTTP exchange: a state machine with exactly one
/// legal transition out of `Headers`, and `Closed` as its terminal state.
/// The transport handles that accompany the non-terminal states — the
/// one-shot response sender, the streaming encoder's write end, the body
/// channel's sender — live with the embedder beside this state.
#[derive(Debug)]
pub enum HttpResponseWriter {
    /// The headers are not yet written.
    Headers,
    /// The body streams through a compressing encoder; the shutdown handle
    /// guards against silent truncation.
    Body { shutdown_handle: ShutdownHandle },
    /// The body streams uncompressed through a push channel.
    BodyUncompressed,
    /// Terminal: the body is complete (or given up); no write may succeed.
    Closed,
}

/// What the outgoing response body is.
#[derive(Debug)]
pub enum OutgoingBody {
    /// The whole body, ready to deliver.
    Full(Vec<u8>),
    /// A streamed body that the embedder materialises as a bounded pipe
    /// feeding a streaming encoder of this coding, polled through the
    /// carried abortable stream, whose shutdown handle sits in the writer
    /// state.
    Stream(Encoding, ExternallyAbortableReaderStream),
    /// A streamed body that the embedder materialises as a push channel.
    Channel,
}

/// The relation `http_response` establishes between its inputs, the writer
/// state it hands back, and the outgoing body: a present payload is
/// finished (compressed when asked) with the writer `Closed`; an absent one
/// streams, compressed through a pipe or uncompressed through a channel.
pub open spec fn spec_body_matches(
    data: Option<Seq<u8>>,
    compressing: bool,
    e: Encoding,
    w: HttpResponseWriter,
    b: OutgoingBody,
) -> bool {
    match data {
        Some(d) => w is Closed && (b matches OutgoingBody::Full(v) && v@ == (if compressing {
            if e is Brotli {
                brotli_of(d)
            } else {
                gzip_of(d)
            }
        } else {
            d
        })),
        None => if compressing {
            w is Body && (b matches OutgoingBody::Stream(e2, _) && e2 == e)
        } else {
            w is BodyUncompressed && b is Channel
        },
    }
}

/// The payload's bytes, as the mathematical view of an optional payload.
pub open spec fn spec_data_view(data: Option<Vec<u8>>) -> Option<Seq<u8>> {
    match data {
        Some(d) => Some(d@),
        None => None,
    }
}

/// Build the outgoing body and the writer state that matches it.
///
/// A present payload is finished immediately (compressed in memory when
/// asked) and the writer is `Closed`; an absent payload yields a streaming
/// body whose writer state stays open. The only failure is a compressor
/// failure, before any state is given out.
pub fn http_response(data: Option<Vec<u8>>, compressing: bool, encoding: Encoding) -> (r: Result<
    (HttpResponseWriter, OutgoingBody),
    HttpError,
>)
    requires
        compressing ==> encoding is Brotli || encoding is Gzip,
    ensures
        r matches Ok(p) ==> spec_body_matches(spec_data_view(data), compressing, encoding, p.0, p.1),
        r matches Err(e) ==> e is Fatal && compressing && data is Some,
        !(data is Some && compressing) ==> r is Ok,
{
    match data {
        Some(d) => {
            if compressing {
                let compressed = match encoding {
                    Encoding::Brotli => brotli_compress(d.as_slice()),
                    Encoding::Gzip => gzip_compress(d.as_slice()),
                    Encoding::Identity => {
                        proof {
                            assert(false);
                        }
                        Err(())
                    },
                };
                match compressed {
                    Ok(v) => Ok((HttpResponseWriter::Closed, OutgoingBody::Full(v))),
                    Err(_) => Err(HttpError::Fatal),
                }
            } else {
                Ok((HttpResponseWriter::Closed, OutgoingBody::Full(d)))
            }
        },
        None => {
            if compressing {
                let (stream, shutdown_handle) = ExternallyAbortableReaderStream::new();
                Ok((
                    HttpResponseWriter::Body { shutdown_handle },
                    OutgoingBody::Stream(encoding, stream),
                ))
            } else {
                Ok((HttpResponseWriter::BodyUncompressed, OutgoingBody::Channel))
            }
        },
    }
}

} // verus!
