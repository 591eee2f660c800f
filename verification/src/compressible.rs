//! Which response content types are worth compressing.
//!
//! The allow-list is default policy lifted from common practice — every
//! `text/*` type plus a list of text-like application and image types — and
//! is replaceable configuration, not an invariant of the design.

use vstd::prelude::*;

use crate::ascii::{
    bytes_eq, bytes_of, lower_bytes, spec_lower, spec_split, spec_trim, split_bytes, starts_with,
    str_bytes, trim_bytes,
};

verus! {

/// The essence of a Content-Type value: its media type without parameters,
/// trimmed and lower-cased. For `Text/HTML; charset=utf-8` this is
/// `text/html`.
pub open spec fn spec_essence(v: Seq<u8>) -> Seq<u8> {
    spec_lower(spec_trim(spec_split(v, 59)[0]))
}

/// Is `e` (an essence) one of the non-`text/*` media types on the
/// compressible allow-list?
pub open spec fn spec_in_allow_list(e: Seq<u8>) -> bool {
    ||| e == bytes_of("application/json"@)
    ||| e == bytes_of("application/javascript"@)
    ||| e == bytes_of("application/x-javascript"@)
    ||| e == bytes_of("application/ecmascript"@)
    ||| e == bytes_of("application/xml"@)
    ||| e == bytes_of("application/xhtml+xml"@)
    ||| e == bytes_of("application/rss+xml"@)
    ||| e == bytes_of("application/atom+xml"@)
    ||| e == bytes_of("application/ld+json"@)
    ||| e == bytes_of("application/manifest+json"@)
    ||| e == bytes_of("application/wasm"@)
    ||| e == bytes_of("image/svg+xml"@)
    ||| e == bytes_of("font/ttf"@)
    ||| e == bytes_of("font/otf"@)
}

/// Is a Content-Type value compressible: a `text/*` media type, or one on
/// the allow-list?
pub open spec fn spec_is_compressible(v: Seq<u8>) -> bool {
    ||| {
        let e = spec_essence(v);
        e.len() >= 5 && e.subrange(0, 5) == bytes_of("text/"@)
    }
    ||| spec_in_allow_list(spec_essence(v))
}

/// Decide whether a response body of this Content-Type is worth
/// compressing.
pub fn is_content_compressible(content_type: &[u8]) -> (r: bool)
    ensures
        r == spec_is_compressible(content_type@),
{
    proof {
        reveal_strlit("text/");
        reveal_strlit("application/json");
        reveal_strlit("application/javascript");
        reveal_strlit("application/x-javascript");
        reveal_strlit("application/ecmascript");
        reveal_strlit("application/xml");
        reveal_strlit("application/xhtml+xml");
        reveal_strlit("application/rss+xml");
        reveal_strlit("application/atom+xml");
        reveal_strlit("application/ld+json");
        reveal_strlit("application/manifest+json");
        reveal_strlit("application/wasm");
        reveal_strlit("image/svg+xml");
        reveal_strlit("font/ttf");
        reveal_strlit("font/otf");
        crate::ascii::lemma_split_len(content_type@, 59);
    }
    let pieces = split_bytes(content_type, 59);
    proof {
        assert(pieces@[0]@ == spec_split(content_type@, 59)[0]);
    }
    let essence = lower_bytes(trim_bytes(pieces[0].as_slice()).as_slice());
    let e = essence.as_slice();
    if starts_with(e, str_bytes("text/")) {
        return true;
    }
    bytes_eq(e, str_bytes("application/json")) || bytes_eq(e, str_bytes("application/javascript"))
        || bytes_eq(e, str_bytes("application/x-javascript")) || bytes_eq(
        e,
        str_bytes("application/ecmascript"),
    ) || bytes_eq(e, str_bytes("application/xml")) || bytes_eq(
        e,
        str_bytes("application/xhtml+xml"),
    ) || bytes_eq(e, str_bytes("application/rss+xml")) || bytes_eq(
        e,
        str_bytes("application/atom+xml"),
    ) || bytes_eq(e, str_bytes("application/ld+json")) || bytes_eq(
        e,
        str_bytes("application/manifest+json"),
    ) || bytes_eq(e, str_bytes("application/wasm")) || bytes_eq(e, str_bytes("image/svg+xml"))
        || bytes_eq(e, str_bytes("font/ttf")) || bytes_eq(e, str_bytes("font/otf"))
}

} // verus!
