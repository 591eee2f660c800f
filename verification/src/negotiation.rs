//! Compression negotiation: choosing a response encoding from the client's
//! `Accept-Encoding` hints, deciding whether a response may be compressed at
//! all, and the header mutations that compression requires.
//!
//! Everything here is pure decision logic over the library's header map; no
//! I/O happens in this module.

use vstd::prelude::*;

use crate::ascii::{
    bytes_of, contains_seq, contains_sub, copy_bytes, lower_bytes, spec_lower, spec_lower_byte,
    spec_split, spec_trim, split_bytes, starts_with, str_bytes, trim_bytes,
};
use crate::headers::{spec_find, spec_get, spec_has, spec_remove, Headers, HeadersView};

verus! {

/// A response content coding. `Identity` means no transformation.
#[derive(Clone, Copy, PartialEq, Eq, Structural, Debug)]
pub enum Encoding {
    Identity,
    Gzip,
    Brotli,
}

/// A byte a header value may hold and still be readable as visible ASCII
/// text (space, horizontal tab, and the printable range).
pub open spec fn visible_ascii(b: u8) -> bool {
    32 <= b < 127 || b == 9
}

/// Every byte of `s` is visible ASCII.
pub open spec fn all_visible(s: Seq<u8>) -> bool {
    forall|i: int| 0 <= i < s.len() ==> visible_ascii(#[trigger] s[i])
}

/// Every byte of `s`, checked.
pub fn check_all_visible(s: &[u8]) -> (r: bool)
    ensures
        r == all_visible(s@),
{
    let mut i: usize = 0;
    while i < s.len()
        invariant
            i <= s.len(),
            forall|j: int| 0 <= j < i ==> visible_ascii(#[trigger] s@[j]),
        decreases s.len() - i,
    {
        let b = s[i];
        if !(32 <= b && b < 127 || b == 9) {
            return false;
        }
        i = i + 1;
    }
    true
}

/// What `weaken_etag` leaves in the map: if an ETag is present and not
/// already weak, its value gains the `W/` prefix; otherwise nothing changes.
pub open spec fn spec_weaken_etag(h: HeadersView) -> HeadersView {
    let f = spec_find(h, bytes_of("etag"@));
    if f >= 0 {
        let v = h[f].1;
        if v.len() >= 2 && v.subrange(0, 2) == bytes_of("W/"@) {
            h
        } else {
            h.update(f, (h[f].0, bytes_of("W/"@) + v))
        }
    } else {
        h
    }
}

/// Make a present ETag a weak validator: prefix its value with `W/` unless
/// it already starts so. A strong validator would be meaningless once the
/// body is re-encoded.
pub fn weaken_etag(h: &mut Headers)
    ensures
        final(h)@ == spec_weaken_etag(old(h)@),
        old(h).wf() ==> final(h).wf(),
{
    proof {
        reveal_strlit("etag");
        reveal_strlit("W/");
    }
    let found = h.find(str_bytes("etag"));
    match found {
        None => {
        },
        Some(i) => {
            let wslash = str_bytes("W/");
            let is_weak = {
                let (_, v) = h.entry_at(i);
                starts_with(v.as_slice(), wslash)
            };
            if !is_weak {
                let mut nv = copy_bytes(wslash);
                let mut j: usize = 0;
                let vlen = {
                    let (_, v) = h.entry_at(i);
                    v.len()
                };
                while j < vlen
                    invariant
                        j <= vlen,
                        i < h@.len(),
                        h == old(h),
                        vlen == h@[i as int].1.len(),
                        nv@ =~= bytes_of("W/"@) + h@[i as int].1.subrange(0, j as int),
                    decreases vlen - j,
                {
                    let b = {
                        let (_, v) = h.entry_at(i);
                        v[j]
                    };
                    nv.push(b);
                    j = j + 1;
                }
                proof {
                    assert(nv@ =~= bytes_of("W/"@) + h@[i as int].1);
                }
                h.set_value_at(i, nv);
                proof {
                    assert(final(h)@ =~= spec_weaken_etag(old(h)@));
                }
            }
        },
    }
}

/// Weakening an ETag twice is the same as weakening it once.
pub proof fn lemma_weaken_etag_idempotent(h: HeadersView)
    ensures
        spec_weaken_etag(spec_weaken_etag(h)) == spec_weaken_etag(h),
{
    reveal_strlit("etag");
    reveal_strlit("W/");
    let e = bytes_of("etag"@);
    let f = spec_find(h, e);
    crate::headers::lemma_find_first(h, e);
    if f >= 0 {
        let v = h[f].1;
        if v.len() >= 2 && v.subrange(0, 2) == bytes_of("W/"@) {
        } else {
            let h1 = spec_weaken_etag(h);
            lemma_find_update_value(h, f, bytes_of("W/"@) + v);
            assert(spec_find(h1, e) == f);
            assert(h1[f].1 =~= bytes_of("W/"@) + v);
            assert((bytes_of("W/"@) + v).subrange(0, 2) =~= bytes_of("W/"@));
            assert(spec_weaken_etag(h1) =~= h1);
        }
    }
}

/// What `ensure_vary_accept_encoding` leaves in the map: the first Vary
/// value gains an `Accept-Encoding` token unless it already holds one
/// (case-insensitively); a missing or unreadable Vary is (re)set to exactly
/// `Accept-Encoding`.
pub open spec fn spec_ensure_vary(h: HeadersView) -> HeadersView {
    let f = spec_find(h, bytes_of("vary"@));
    if f >= 0 && all_visible(h[f].1) {
        if contains_seq(spec_lower(h[f].1), bytes_of("accept-encoding"@)) {
            h
        } else {
            h.update(f, (h[f].0, bytes_of("Accept-Encoding, "@) + h[f].1))
        }
    } else if f >= 0 {
        spec_remove(h, bytes_of("vary"@)).push((bytes_of("vary"@), bytes_of("Accept-Encoding"@)))
    } else {
        h.push((bytes_of("vary"@), bytes_of("Accept-Encoding"@)))
    }
}

/// Merge `Accept-Encoding` into the response's Vary header, so that caches
/// never serve one client's encoding to another. The header is set whether
/// or not the body is compressed.
pub fn ensure_vary_accept_encoding(h: &mut Headers)
    ensures
        final(h)@ == spec_ensure_vary(old(h)@),
        old(h).wf() ==> final(h).wf(),
{
    proof {
        reveal_strlit("vary");
        reveal_strlit("accept-encoding");
        reveal_strlit("Accept-Encoding");
        reveal_strlit("Accept-Encoding, ");
    }
    let vary = str_bytes("vary");
    let found = h.find(vary);
    match found {
        Some(i) => {
            let visible = {
                let (_, v) = h.entry_at(i);
                check_all_visible(v.as_slice())
            };
            if visible {
                let lowered = {
                    let (_, v) = h.entry_at(i);
                    lower_bytes(v.as_slice())
                };
                if contains_sub(lowered.as_slice(), str_bytes("accept-encoding")) {
                } else {
                    let mut nv = copy_bytes(str_bytes("Accept-Encoding, "));
                    let vlen = {
                        let (_, v) = h.entry_at(i);
                        v.len()
                    };
                    let mut j: usize = 0;
                    while j < vlen
                        invariant
                            j <= vlen,
                            i < h@.len(),
                            h == old(h),
                            vlen == h@[i as int].1.len(),
                            nv@ =~= bytes_of("Accept-Encoding, "@) + h@[i as int].1.subrange(
                                0,
                                j as int,
                            ),
                        decreases vlen - j,
                    {
                        let b = {
                            let (_, v) = h.entry_at(i);
                            v[j]
                        };
                        nv.push(b);
                        j = j + 1;
                    }
                    proof {
                        assert(nv@ =~= bytes_of("Accept-Encoding, "@) + h@[i as int].1);
                    }
                    h.set_value_at(i, nv);
                    proof {
                        assert(final(h)@ =~= spec_ensure_vary(old(h)@));
                    }
                }
            } else {
                h.remove(vary);
                h.append(copy_bytes(vary), copy_bytes(str_bytes("Accept-Encoding")));
                proof {
                    assert(spec_lower(bytes_of("vary"@)) =~= bytes_of("vary"@));
                    assert(final(h)@ =~= spec_ensure_vary(old(h)@));
                }
            }
        },
        None => {
            h.append(copy_bytes(vary), copy_bytes(str_bytes("Accept-Encoding")));
            proof {
                assert(spec_lower(bytes_of("vary"@)) =~= bytes_of("vary"@));
                assert(final(h)@ =~= spec_ensure_vary(old(h)@));
            }
        },
    }
}

/// Lower-casing distributes over concatenation.
pub proof fn lemma_lower_concat(a: Seq<u8>, b: Seq<u8>)
    ensures
        spec_lower(a + b) =~= spec_lower(a) + spec_lower(b),
{
}

/// Pushing a fresh entry named `name` onto a map without one makes it the
/// first (and only) entry found under that name.
pub proof fn lemma_find_push(h: HeadersView, e: (Seq<u8>, Seq<u8>), name: Seq<u8>)
    requires
        !spec_has(h, name),
        e.0 == name,
    ensures
        spec_find(h.push(e), name) == h.len(),
    decreases h.len(),
{
    if h.len() == 0 {
        assert(h.push(e)[0] == e);
    } else {
        assert(h.push(e)[0] == h[0]);
        lemma_find_push(h.drop_first(), e, name);
        assert(h.push(e).drop_first() =~= h.drop_first().push(e));
    }
}

/// After `ensure_vary_accept_encoding`, a Vary header is present, readable,
/// and holds `accept-encoding` case-insensitively.
pub proof fn lemma_ensure_vary_establishes(h: HeadersView)
    ensures
        ({
            let h1 = spec_ensure_vary(h);
            let f = spec_find(h1, bytes_of("vary"@));
            &&& f >= 0
            &&& all_visible(h1[f].1)
            &&& contains_seq(spec_lower(h1[f].1), bytes_of("accept-encoding"@))
        }),
{
    reveal_strlit("vary");
    reveal_strlit("accept-encoding");
    reveal_strlit("Accept-Encoding");
    reveal_strlit("Accept-Encoding, ");
    let vary = bytes_of("vary"@);
    let ae = bytes_of("accept-encoding"@);
    let h1 = spec_ensure_vary(h);
    let f = spec_find(h, vary);
    crate::headers::lemma_find_first(h, vary);
    if f >= 0 && all_visible(h[f].1) {
        if contains_seq(spec_lower(h[f].1), ae) {
        } else {
            let nv = bytes_of("Accept-Encoding, "@) + h[f].1;
            lemma_find_update_value(h, f, nv);
            assert(spec_find(h1, vary) == f);
            assert(h1[f].1 == nv);
            assert(all_visible(nv)) by {
                assert(forall|i: int|
                    0 <= i < nv.len() && i >= 17 ==> nv[i] == h[f].1[i - 17]
                        && visible_ascii(#[trigger] nv[i]));
                assert(forall|i: int| 0 <= i < 17 ==> visible_ascii(#[trigger] nv[i]));
            }
            assert(contains_seq(spec_lower(nv), ae)) by {
                assert(spec_lower(nv).subrange(0, 15) =~= ae);
                assert(crate::ascii::matches_at(spec_lower(nv), ae, 0));
            }
        }
    } else {
        let base = if f >= 0 {
            spec_remove(h, vary)
        } else {
            h
        };
        let nv = bytes_of("Accept-Encoding"@);
        assert(!spec_has(base, vary)) by {
            if f >= 0 {
                crate::headers::lemma_remove_spec(h, vary);
            }
        }
        lemma_find_push(base, (vary, nv), vary);
        let f1 = spec_find(h1, vary);
        assert(f1 == base.len());
        assert(h1[f1].1 == nv);
        assert(all_visible(nv));
        assert(contains_seq(spec_lower(nv), ae)) by {
            assert(spec_lower(nv).subrange(0, 15) =~= ae);
            assert(crate::ascii::matches_at(spec_lower(nv), ae, 0));
        }
    }
}

/// Merging `Accept-Encoding` into Vary twice is the same as doing it once.
pub proof fn lemma_ensure_vary_idempotent(h: HeadersView)
    ensures
        spec_ensure_vary(spec_ensure_vary(h)) == spec_ensure_vary(h),
{
    lemma_ensure_vary_establishes(h);
}

/// `v` holds the directive `t` (given lower-cased): some comma-separated
/// piece of `v`, trimmed and lower-cased, is exactly `t`.
pub open spec fn spec_has_directive(v: Seq<u8>, t: Seq<u8>) -> bool {
    exists|i: int|
        0 <= i < spec_split(spec_lower(v), 44).len() && spec_trim(
            #[trigger] spec_split(spec_lower(v), 44)[i],
        ) == t
}

/// Does `v` hold the directive `t` (given lower-cased)?
pub fn has_directive(v: &[u8], t: &[u8]) -> (r: bool)
    ensures
        r == spec_has_directive(v@, t@),
{
    let lowered = lower_bytes(v);
    let pieces = split_bytes(lowered.as_slice(), 44);
    let ghost ps = spec_split(spec_lower(v@), 44);
    let mut i: usize = 0;
    while i < pieces.len()
        invariant
            i <= pieces.len(),
            pieces.deep_view() == ps,
            ps == spec_split(spec_lower(v@), 44),
            forall|j: int| 0 <= j < i ==> spec_trim(#[trigger] ps[j]) != t@,
        decreases pieces.len() - i,
    {
        proof {
            assert(pieces@[i as int]@ == ps[i as int]);
        }
        let piece = trim_bytes(pieces[i].as_slice());
        if crate::ascii::bytes_eq(piece.as_slice(), t) {
            return true;
        }
        i = i + 1;
    }
    false
}

/// The Cache-Control header forbids transforming the body: it is present
/// and either unreadable as text (err toward not compressing) or holds the
/// `no-transform` directive.
pub open spec fn spec_cache_control_blocks(h: HeadersView) -> bool {
    match spec_get(h, bytes_of("cache-control"@)) {
        None => false,
        Some(v) => !all_visible(v) || spec_has_directive(v, bytes_of("no-transform"@)),
    }
}

/// A response may be compressed only when nothing forbids it: no
/// Content-Range (range semantics would be corrupted), no Content-Encoding
/// (already compressed), no Cache-Control that blocks transformation, and a
/// Content-Type on the compressible allow-list.
pub open spec fn spec_should_compress(h: HeadersView) -> bool {
    &&& !spec_has(h, bytes_of("content-range"@))
    &&& !spec_has(h, bytes_of("content-encoding"@))
    &&& !spec_cache_control_blocks(h)
    &&& match spec_get(h, bytes_of("content-type"@)) {
        None => false,
        Some(ct) => crate::compressible::spec_is_compressible(ct),
    }
}

/// Decide from the response headers whether the body may be compressed.
/// A present Content-Range or Content-Encoding always forbids compression,
/// independent of every other header.
pub fn should_compress(h: &Headers) -> (r: bool)
    ensures
        r == spec_should_compress(h@),
        spec_has(h@, bytes_of("content-range"@)) ==> !r,
        spec_has(h@, bytes_of("content-encoding"@)) ==> !r,
{
    proof {
        reveal_strlit("content-range");
        reveal_strlit("content-encoding");
        reveal_strlit("cache-control");
        reveal_strlit("content-type");
        reveal_strlit("no-transform");
    }
    if h.contains_name(str_bytes("content-range")) {
        return false;
    }
    if h.contains_name(str_bytes("content-encoding")) {
        return false;
    }
    match h.get(str_bytes("cache-control")) {
        Some(v) => {
            if !check_all_visible(v.as_slice()) {
                return false;
            }
            if has_directive(v.as_slice(), str_bytes("no-transform")) {
                return false;
            }
        },
        None => {
        },
    }
    match h.get(str_bytes("content-type")) {
        Some(ct) => crate::compressible::is_content_compressible(ct.as_slice()),
        None => false,
    }
}

/// The weight of a quality value in thousandths: `0.9` is 900 and a bare
/// `1` is 1000. `None` when the text does not follow the `qvalue` grammar
/// (one digit `0` or `1`, optionally a dot and up to three digits, at most
/// `1.000`).
pub open spec fn spec_qvalue_milli(s: Seq<u8>) -> Option<int> {
    if s.len() < 1 || !(s[0] == 48 || s[0] == 49) {
        None
    } else if s.len() == 1 {
        Some((s[0] - 48) * 1000)
    } else if s[1] != 46 || s.len() > 5 {
        None
    } else if exists|i: int| 2 <= i < s.len() && !(48 <= #[trigger] s[i] <= 57) {
        None
    } else {
        let d1: int = if s.len() > 2 {
            s[2] - 48
        } else {
            0
        };
        let d2: int = if s.len() > 3 {
            s[3] - 48
        } else {
            0
        };
        let d3: int = if s.len() > 4 {
            s[4] - 48
        } else {
            0
        };
        let v = (s[0] - 48) * 1000 + d1 * 100 + d2 * 10 + d3;
        if v > 1000 {
            None
        } else {
            Some(v)
        }
    }
}

/// Parse a quality value into thousandths.
pub fn qvalue_milli(s: &[u8]) -> (r: Option<u16>)
    ensures
        match r {
            Some(w) => spec_qvalue_milli(s@) == Some(w as int) && w <= 1000,
            None => spec_qvalue_milli(s@) is None,
        },
{
    if s.len() < 1 || !(s[0] == 48 || s[0] == 49) {
        return None;
    }
    if s.len() == 1 {
        return Some((s[0] - 48) as u16 * 1000);
    }
    if s[1] != 46 || s.len() > 5 {
        return None;
    }
    let mut i: usize = 2;
    while i < s.len()
        invariant
            2 <= i <= s.len(),
            forall|j: int| 2 <= j < i ==> 48 <= #[trigger] s@[j] <= 57,
        decreases s.len() - i,
    {
        if !(48 <= s[i] && s[i] <= 57) {
            return None;
        }
        i = i + 1;
    }
    let d1: u16 = if s.len() > 2 {
        (s[2] - 48) as u16
    } else {
        0
    };
    let d2: u16 = if s.len() > 3 {
        (s[3] - 48) as u16
    } else {
        0
    };
    let d3: u16 = if s.len() > 4 {
        (s[4] - 48) as u16
    } else {
        0
    };
    let v: u16 = (s[0] - 48) as u16 * 1000 + d1 * 100 + d2 * 10 + d3;
    if v > 1000 {
        None
    } else {
        Some(v)
    }
}

/// An accept-params segment that names a quality: its trimmed text starts
/// with `q=`, case-insensitively.
pub open spec fn spec_is_q_param(s: Seq<u8>) -> bool {
    let t = spec_trim(s);
    t.len() >= 2 && spec_lower_byte(t[0]) == 113 && t[1] == 61
}

/// The position of the first quality segment among `params`, or `-1`.
pub open spec fn spec_find_q(params: Seq<Seq<u8>>) -> int
    decreases params.len(),
{
    if params.len() == 0 {
        -1
    } else if spec_is_q_param(params[0]) {
        0
    } else {
        let r = spec_find_q(params.drop_first());
        if r < 0 {
            -1
        } else {
            r + 1
        }
    }
}

proof fn lemma_find_q_at(params: Seq<Seq<u8>>, m: int)
    requires
        0 <= m < params.len(),
        spec_is_q_param(params[m]),
        forall|k: int| 0 <= k < m ==> !spec_is_q_param(#[trigger] params[k]),
    ensures
        spec_find_q(params) == m,
    decreases params.len(),
{
    if m > 0 {
        lemma_find_q_at(params.drop_first(), m - 1);
    }
}

proof fn lemma_find_q_none(params: Seq<Seq<u8>>)
    requires
        forall|k: int| 0 <= k < params.len() ==> !spec_is_q_param(#[trigger] params[k]),
    ensures
        spec_find_q(params) == -1,
    decreases params.len(),
{
    if params.len() > 0 {
        lemma_find_q_none(params.drop_first());
    }
}

/// The content coding an Accept-Encoding entry names: the text before its
/// first `;`, trimmed and lower-cased.
pub open spec fn spec_entry_coding(p: Seq<u8>) -> Seq<u8> {
    spec_lower(spec_trim(spec_split(p, 59)[0]))
}

/// The weight an Accept-Encoding entry carries, in thousandths: 1000 when
/// no quality segment follows the coding, the parsed quality when one does,
/// and `None` (the entry is ignored) when its quality is malformed.
pub open spec fn spec_entry_weight(p: Seq<u8>) -> Option<int> {
    let params = spec_split(p, 59).drop_first();
    let qi = spec_find_q(params);
    if qi < 0 {
        Some(1000)
    } else {
        spec_qvalue_milli(spec_trim(params[qi]).skip(2))
    }
}

/// What one entry contributes toward a coding's weight: its weight when it
/// names that coding and is well-formed, `-1` otherwise.
pub open spec fn spec_piece_contrib(p: Seq<u8>, coding: Seq<u8>) -> int {
    if spec_entry_coding(p) == coding {
        match spec_entry_weight(p) {
            Some(w) => w,
            None => -1,
        }
    } else {
        -1
    }
}

/// The greatest weight any entry among `pieces` gives to `coding`; `-1`
/// when no well-formed entry names it.
pub open spec fn spec_max_weight(pieces: Seq<Seq<u8>>, coding: Seq<u8>) -> int
    decreases pieces.len(),
{
    if pieces.len() == 0 {
        -1
    } else {
        let w0 = spec_piece_contrib(pieces[0], coding);
        let rest = spec_max_weight(pieces.drop_first(), coding);
        if w0 >= rest {
            w0
        } else {
            rest
        }
    }
}

/// The greatest weight over a concatenation is the greater of the two
/// greatest weights.
pub proof fn lemma_max_weight_concat(a: Seq<Seq<u8>>, b: Seq<Seq<u8>>, coding: Seq<u8>)
    ensures
        spec_max_weight(a + b, coding) == vstd::math::max(
            spec_max_weight(a, coding),
            spec_max_weight(b, coding),
        ),
    decreases a.len(),
{
    if a.len() == 0 {
        assert(a + b =~~= b);
    } else {
        assert((a + b).drop_first() =~~= a.drop_first() + b);
        assert((a + b)[0] == a[0]);
        lemma_max_weight_concat(a.drop_first(), b, coding);
    }
}

/// Every Accept-Encoding entry the request carries, over all its
/// Accept-Encoding headers, split on commas, in order.
pub open spec fn spec_ae_pieces(h: HeadersView) -> Seq<Seq<u8>>
    decreases h.len(),
{
    if h.len() == 0 {
        Seq::empty()
    } else {
        (if h[0].0 == bytes_of("accept-encoding"@) {
            spec_split(h[0].1, 44)
        } else {
            Seq::empty()
        }) + spec_ae_pieces(h.drop_first())
    }
}

/// The encoding a request negotiates: the most-preferred of Brotli and
/// Gzip by advertised weight, Brotli on ties, and Identity when neither is
/// acceptable (absent, weight zero, or malformed). Other codings are
/// ignored.
pub open spec fn spec_negotiate(h: HeadersView) -> Encoding {
    let wbr = spec_max_weight(spec_ae_pieces(h), bytes_of("br"@));
    let wgz = spec_max_weight(spec_ae_pieces(h), bytes_of("gzip"@));
    if wbr > 0 && wbr >= wgz {
        Encoding::Brotli
    } else if wgz > 0 {
        Encoding::Gzip
    } else {
        Encoding::Identity
    }
}

/// What one entry contributes toward a coding's weight, computed.
fn piece_contrib(p: &[u8], coding: &[u8]) -> (r: i32)
    ensures
        r as int == spec_piece_contrib(p@, coding@),
        -1 <= r <= 1000,
{
    proof {
        crate::ascii::lemma_split_len(p@, 59);
    }
    let segs = split_bytes(p, 59);
    let ghost segsv = spec_split(p@, 59);
    proof {
        assert(segs@[0]@ == segsv[0]);
    }
    let c = lower_bytes(trim_bytes(segs[0].as_slice()).as_slice());
    if !crate::ascii::bytes_eq(c.as_slice(), coding) {
        return -1;
    }
    let ghost params = segsv.drop_first();
    let mut j: usize = 1;
    let mut qi: usize = 0;
    let mut found = false;
    while j < segs.len()
        invariant_except_break
            !found,
            1 <= j <= segs@.len(),
            forall|k: int| 0 <= k < j - 1 ==> !spec_is_q_param(#[trigger] params[k]),
        invariant
            segs.deep_view() == segsv,
            params == segsv.drop_first(),
            segs@.len() == segsv.len(),
        ensures
            found ==> 1 <= qi < segs@.len() && spec_is_q_param(params[qi - 1]) && (forall|k: int|
                0 <= k < qi - 1 ==> !spec_is_q_param(#[trigger] params[k])),
            !found ==> forall|k: int| 0 <= k < params.len() ==> !spec_is_q_param(
                #[trigger] params[k],
            ),
        decreases segs@.len() - j,
    {
        proof {
            assert(segs@[j as int]@ == segsv[j as int]);
            assert(params[j - 1] == segsv[j as int]);
        }
        let t = trim_bytes(segs[j].as_slice());
        if t.len() >= 2 && crate::ascii::lower_byte(t[0]) == 113 && t[1] == 61 {
            qi = j;
            found = true;
            break;
        }
        j = j + 1;
    }
    if !found {
        proof {
            lemma_find_q_none(params);
        }
        return 1000;
    }
    proof {
        lemma_find_q_at(params, qi - 1);
    }
    let t = trim_bytes(segs[qi].as_slice());
    proof {
        assert(segs@[qi as int]@ == segsv[qi as int]);
        assert(t@ == spec_trim(params[qi - 1]));
    }
    let rest = crate::ascii::tail_bytes(t.as_slice(), 2);
    match qvalue_milli(rest.as_slice()) {
        Some(w) => w as i32,
        None => -1,
    }
}

/// Choose the response encoding from the request's Accept-Encoding
/// headers.
pub fn negotiate(h: &Headers) -> (r: Encoding)
    ensures
        r == spec_negotiate(h@),
{
    proof {
        reveal_strlit("accept-encoding");
        reveal_strlit("br");
        reveal_strlit("gzip");
    }
    let ae_name = str_bytes("accept-encoding");
    let br = str_bytes("br");
    let gz = str_bytes("gzip");
    let ghost hv = h@;
    let ghost brw = spec_max_weight(spec_ae_pieces(hv), bytes_of("br"@));
    let ghost gzw = spec_max_weight(spec_ae_pieces(hv), bytes_of("gzip"@));
    let mut wbr: i32 = -1;
    let mut wgz: i32 = -1;
    let n = h.len();
    let mut i: usize = 0;
    proof {
        assert(hv.skip(0) =~= hv);
    }
    while i < n
        invariant
            i <= n,
            n == hv.len(),
            hv == h@,
            ae_name@ == bytes_of("accept-encoding"@),
            br@ == bytes_of("br"@),
            gz@ == bytes_of("gzip"@),
            -1 <= wbr <= 1000,
            -1 <= wgz <= 1000,
            brw == vstd::math::max(
                wbr as int,
                spec_max_weight(spec_ae_pieces(hv.skip(i as int)), bytes_of("br"@)),
            ),
            gzw == vstd::math::max(
                wgz as int,
                spec_max_weight(spec_ae_pieces(hv.skip(i as int)), bytes_of("gzip"@)),
            ),
        decreases n - i,
    {
        let ghost pre = hv.skip(i as int);
        proof {
            assert(pre.drop_first() =~= hv.skip(i as int + 1));
            assert(pre[0] == hv[i as int]);
        }
        let is_ae = {
            let (name, _) = h.entry_at(i);
            crate::ascii::bytes_eq(name.as_slice(), ae_name)
        };
        if is_ae {
            let pieces = {
                let (_, v) = h.entry_at(i);
                split_bytes(v.as_slice(), 44)
            };
            let ghost pv = spec_split(hv[i as int].1, 44);
            proof {
                assert(pre[0].0 == bytes_of("accept-encoding"@));
                assert(spec_ae_pieces(pre) == pv + spec_ae_pieces(pre.drop_first()));
                lemma_max_weight_concat(pv, spec_ae_pieces(pre.drop_first()), bytes_of("br"@));
                lemma_max_weight_concat(pv, spec_ae_pieces(pre.drop_first()), bytes_of("gzip"@));
                assert(pv.skip(0) =~~= pv);
            }
            let m = pieces.len();
            let mut j: usize = 0;
            while j < m
                invariant
                    j <= m,
                    m == pv.len(),
                    pieces.deep_view() == pv,
                    br@ == bytes_of("br"@),
                    gz@ == bytes_of("gzip"@),
                    -1 <= wbr <= 1000,
                    -1 <= wgz <= 1000,
                    brw == vstd::math::max(
                        wbr as int,
                        vstd::math::max(
                            spec_max_weight(pv.skip(j as int), bytes_of("br"@)),
                            spec_max_weight(
                                spec_ae_pieces(hv.skip(i as int + 1)),
                                bytes_of("br"@),
                            ),
                        ),
                    ),
                    gzw == vstd::math::max(
                        wgz as int,
                        vstd::math::max(
                            spec_max_weight(pv.skip(j as int), bytes_of("gzip"@)),
                            spec_max_weight(
                                spec_ae_pieces(hv.skip(i as int + 1)),
                                bytes_of("gzip"@),
                            ),
                        ),
                    ),
                decreases m - j,
            {
                let ghost pj = pv.skip(j as int);
                proof {
                    assert(pj.drop_first() =~~= pv.skip(j as int + 1));
                    assert(pj[0] == pv[j as int]);
                    assert(pieces@[j as int]@ == pv[j as int]);
                }
                let cb = piece_contrib(pieces[j].as_slice(), br);
                if cb > wbr {
                    wbr = cb;
                }
                let cg = piece_contrib(pieces[j].as_slice(), gz);
                if cg > wgz {
                    wgz = cg;
                }
                j = j + 1;
            }
            proof {
                assert(pv.skip(pv.len() as int) =~~= Seq::<Seq<u8>>::empty());
            }
        } else {
            proof {
                assert(spec_ae_pieces(pre) =~~= spec_ae_pieces(pre.drop_first()));
            }
        }
        i = i + 1;
    }
    proof {
        assert(hv.skip(hv.len() as int) =~= Seq::<(Seq<u8>, Seq<u8>)>::empty());
        assert(brw == wbr as int);
        assert(gzw == wgz as int);
    }
    if wbr > 0 && wbr >= wgz {
        Encoding::Brotli
    } else if wgz > 0 {
        Encoding::Gzip
    } else {
        Encoding::Identity
    }
}

/// When both Brotli and Gzip are acceptable and Brotli's weight is at least
/// Gzip's, negotiation chooses Brotli; a request whose entries name neither
/// Brotli nor Gzip with positive weight negotiates Identity.
pub proof fn lemma_negotiate_prefers_brotli(h: HeadersView)
    ensures
        ({
            let wbr = spec_max_weight(spec_ae_pieces(h), bytes_of("br"@));
            let wgz = spec_max_weight(spec_ae_pieces(h), bytes_of("gzip"@));
            &&& (wbr > 0 && wgz > 0 && wbr >= wgz) ==> spec_negotiate(h) == Encoding::Brotli
            &&& (wbr <= 0 && wgz <= 0) ==> spec_negotiate(h) == Encoding::Identity
        }),
{
}

/// Updating an entry's value does not move `spec_find` for any name.
pub proof fn lemma_find_update_value(h: HeadersView, i: int, v: Seq<u8>)
    requires
        0 <= i < h.len(),
    ensures
        forall|name: Seq<u8>| #[trigger] spec_find(h.update(i, (h[i].0, v)), name) == spec_find(
            h,
            name,
        ),
    decreases h.len(),
{
    assert forall|name: Seq<u8>| #[trigger] spec_find(h.update(i, (h[i].0, v)), name) == spec_find(
        h,
        name,
    ) by {
        lemma_find_update_value_one(h, i, v, name);
    }
}

proof fn lemma_find_update_value_one(h: HeadersView, i: int, v: Seq<u8>, name: Seq<u8>)
    requires
        0 <= i < h.len(),
    ensures
        spec_find(h.update(i, (h[i].0, v)), name) == spec_find(h, name),
    decreases h.len(),
{
    let h1 = h.update(i, (h[i].0, v));
    assert(h1[0].0 == h[0].0);
    if h[0].0 == name {
    } else {
        if i == 0 {
            assert(h1.drop_first() =~= h.drop_first());
        } else {
            assert(h1.drop_first() =~= h.drop_first().update(i - 1, (h.drop_first()[i - 1].0, v)));
            lemma_find_update_value_one(h.drop_first(), i - 1, v, name);
        }
    }
}

} // verus!
verus! {

/// How many of the comma-separated pieces are the `accept-encoding` token
/// once trimmed (the pieces being already lower-cased).
pub open spec fn spec_count_ae(ps: Seq<Seq<u8>>) -> int
    decreases ps.len(),
{
    if ps.len() == 0 {
        0
    } else {
        (if spec_trim(ps[0]) == bytes_of("accept-encoding"@) {
            1int
        } else {
            0
        }) + spec_count_ae(ps.drop_first())
    }
}

/// How many `accept-encoding` tokens a Vary value holds, case-insensitively.
pub open spec fn spec_ae_tokens(v: Seq<u8>) -> int {
    spec_count_ae(spec_split(spec_lower(v), 44))
}

proof fn lemma_count_ae_nonneg(ps: Seq<Seq<u8>>)
    ensures
        spec_count_ae(ps) >= 0,
    decreases ps.len(),
{
    if ps.len() > 0 {
        lemma_count_ae_nonneg(ps.drop_first());
    }
}

proof fn lemma_count_ae_update0(ps: Seq<Seq<u8>>, y: Seq<u8>)
    requires
        ps.len() >= 1,
        spec_trim(y) == spec_trim(ps[0]),
    ensures
        spec_count_ae(ps.update(0, y)) == spec_count_ae(ps),
{
    assert(ps.update(0, y).drop_first() =~~= ps.drop_first());
}

proof fn lemma_count_ae_pos_exists(ps: Seq<Seq<u8>>)
    requires
        spec_count_ae(ps) > 0,
    ensures
        exists|i: int|
            0 <= i < ps.len() && spec_trim(#[trigger] ps[i]) == bytes_of("accept-encoding"@),
    decreases ps.len(),
{
    if spec_trim(ps[0]) == bytes_of("accept-encoding"@) {
    } else {
        lemma_count_ae_pos_exists(ps.drop_first());
        let i = choose|i: int|
            0 <= i < ps.drop_first().len() && spec_trim(#[trigger] ps.drop_first()[i]) == bytes_of(
                "accept-encoding"@,
            );
        assert(ps[i + 1] == ps.drop_first()[i]);
    }
}

/// A Vary value that holds an `accept-encoding` token also holds
/// `accept-encoding` as a substring of its lower-cased text.
proof fn lemma_ae_token_gives_substring(v: Seq<u8>)
    requires
        spec_ae_tokens(v) > 0,
    ensures
        contains_seq(spec_lower(v), bytes_of("accept-encoding"@)),
{
    let ae = bytes_of("accept-encoding"@);
    let s = spec_lower(v);
    let ps = spec_split(s, 44);
    lemma_count_ae_pos_exists(ps);
    let i = choose|i: int| 0 <= i < ps.len() && spec_trim(#[trigger] ps[i]) == ae;
    crate::ascii::lemma_split_piece_contig_at(s, 44, i);
    let k = choose|k: int| #[trigger] crate::ascii::is_contig_piece(s, ps[i], k);
    crate::ascii::lemma_trim_is_subrange(ps[i]);
    let (a, b) = choose|a: int, b: int|
        0 <= a <= b <= ps[i].len() && spec_trim(#[trigger] ps[i]) == ps[i].subrange(a, b);
    assert(ps[i].subrange(a, b) =~= s.subrange(k + a, k + b));
    assert(s.subrange(k + a, k + a + ae.len()) == ae);
    assert(crate::ascii::matches_at(s, ae, k + a));
}

/// Merging `Accept-Encoding` into Vary never creates a duplicate token:
/// after the merge, the Vary value holds at most one `accept-encoding`
/// token — counted case-insensitively among its comma-separated, trimmed
/// pieces — unless the value already held more than one before.
pub proof fn lemma_ensure_vary_no_duplicate_tokens(h: HeadersView)
    ensures
        ({
            let h1 = spec_ensure_vary(h);
            let f1 = spec_find(h1, bytes_of("vary"@));
            let f = spec_find(h, bytes_of("vary"@));
            &&& 0 <= f1 < h1.len()
            &&& spec_ae_tokens(h1[f1].1) <= vstd::math::max(
                1,
                if f >= 0 {
                    spec_ae_tokens(h[f].1)
                } else {
                    0
                },
            )
        }),
{
    reveal_strlit("vary");
    reveal_strlit("accept-encoding");
    reveal_strlit("Accept-Encoding");
    reveal_strlit("Accept-Encoding, ");
    reveal_strlit("accept-encoding, ");
    let vary = bytes_of("vary"@);
    let ae = bytes_of("accept-encoding"@);
    let h1 = spec_ensure_vary(h);
    let f = spec_find(h, vary);
    crate::headers::lemma_find_first(h, vary);
    if f >= 0 && all_visible(h[f].1) && contains_seq(spec_lower(h[f].1), ae) {
        lemma_count_ae_nonneg(spec_split(spec_lower(h[f].1), 44));
    } else if f >= 0 && all_visible(h[f].1) {
        let v = h[f].1;
        let nv = bytes_of("Accept-Encoding, "@) + v;
        lemma_find_update_value(h, f, nv);
        assert(spec_find(h1, vary) == f);
        assert(h1[f].1 == nv);
        lemma_lower_concat(bytes_of("Accept-Encoding, "@), v);
        assert(spec_lower(bytes_of("Accept-Encoding, "@)) =~= bytes_of("accept-encoding, "@));
        assert(bytes_of("accept-encoding, "@) =~= ae + seq![44u8] + seq![32u8]);
        let x = seq![32u8] + spec_lower(v);
        assert(spec_lower(nv) =~= ae + (seq![44u8] + x));
        assert(forall|i: int| 0 <= i < ae.len() ==> #[trigger] ae[i] != 44);
        crate::ascii::lemma_split_concat_nodelim(ae, seq![44u8] + x, 44);
        let sx = spec_split(x, 44);
        crate::ascii::lemma_split_len(x, 44);
        assert((seq![44u8] + x).drop_first() =~= x);
        assert(spec_split(seq![44u8] + x, 44) == seq![Seq::<u8>::empty()] + sx);
        let whole = spec_split(spec_lower(nv), 44);
        assert(whole == crate::ascii::splice_first(ae, seq![Seq::<u8>::empty()] + sx));
        assert(whole =~~= seq![ae] + sx);
        assert(whole.drop_first() =~~= sx);
        assert(spec_trim(ae) == ae);
        assert(spec_count_ae(whole) == 1 + spec_count_ae(sx));
        let p = spec_split(spec_lower(v), 44);
        crate::ascii::lemma_split_len(spec_lower(v), 44);
        assert(x.drop_first() =~= spec_lower(v));
        assert(x[0] == 32);
        assert(spec_split(x, 44) == p.update(0, seq![32u8] + p[0]));
        crate::ascii::lemma_trim_space_prefix(p[0]);
        lemma_count_ae_update0(p, seq![32u8] + p[0]);
        assert(spec_count_ae(sx) == spec_count_ae(p));
        lemma_count_ae_nonneg(p);
        if spec_count_ae(p) > 0 {
            lemma_ae_token_gives_substring(v);
            assert(false);
        }
        assert(spec_ae_tokens(nv) == 1);
    } else {
        let base = if f >= 0 {
            spec_remove(h, vary)
        } else {
            h
        };
        let nv = bytes_of("Accept-Encoding"@);
        assert(!spec_has(base, vary)) by {
            if f >= 0 {
                crate::headers::lemma_remove_spec(h, vary);
            }
        }
        lemma_find_push(base, (vary, nv), vary);
        let f1 = spec_find(h1, vary);
        assert(f1 == base.len());
        assert(h1[f1].1 == nv);
        assert(spec_lower(nv) =~= ae);
        assert(forall|i: int| 0 <= i < ae.len() ==> #[trigger] ae[i] != 44);
        crate::ascii::lemma_split_nodelim(ae, 44);
        assert(spec_trim(ae) == ae);
        assert(spec_count_ae(seq![ae]) == 1) by {
            reveal_with_fuel(spec_count_ae, 2);
            assert(seq![ae].drop_first() =~~= Seq::<Seq<u8>>::empty());
        }
        assert(spec_ae_tokens(nv) == 1);
        if f >= 0 {
            lemma_count_ae_nonneg(spec_split(spec_lower(h[f].1), 44));
        }
    }
}

} // verus!
