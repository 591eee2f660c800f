//! Byte-level helpers for HTTP header text: ASCII case folding, optional
//! whitespace trimming, delimiter splitting, and substring search.
//!
//! Header names and values are byte strings, so everything here works on
//! `Seq<u8>` in specifications and on byte slices in executable code.

use vstd::prelude::*;

verus! {

/// ASCII lower-casing of one byte.
pub open spec fn spec_lower_byte(b: u8) -> u8 {
    if 65 <= b && b <= 90 {
        (b + 32) as u8
    } else {
        b
    }
}

/// ASCII lower-casing of a byte string.
pub open spec fn spec_lower(s: Seq<u8>) -> Seq<u8> {
    Seq::new(s.len(), |i: int| spec_lower_byte(s[i]))
}

/// Optional whitespace in header field text: space and horizontal tab.
pub open spec fn is_ows(b: u8) -> bool {
    b == 32 || b == 9
}

/// `s` without leading optional whitespace.
pub open spec fn spec_trim_start(s: Seq<u8>) -> Seq<u8>
    decreases s.len(),
{
    if s.len() > 0 && is_ows(s[0]) {
        spec_trim_start(s.drop_first())
    } else {
        s
    }
}

/// `s` without trailing optional whitespace.
pub open spec fn spec_trim_end(s: Seq<u8>) -> Seq<u8>
    decreases s.len(),
{
    if s.len() > 0 && is_ows(s.last()) {
        spec_trim_end(s.drop_last())
    } else {
        s
    }
}

/// `s` without leading and trailing optional whitespace.
pub open spec fn spec_trim(s: Seq<u8>) -> Seq<u8> {
    spec_trim_end(spec_trim_start(s))
}

/// The pieces of `s` between occurrences of the delimiter `d`, in order.
/// Splitting never yields an empty list: a string without the delimiter is
/// one piece, and each delimiter adds one piece.
pub open spec fn spec_split(s: Seq<u8>, d: u8) -> Seq<Seq<u8>>
    decreases s.len(),
{
    if s.len() == 0 {
        seq![Seq::<u8>::empty()]
    } else if s[0] == d {
        seq![Seq::<u8>::empty()] + spec_split(s.drop_first(), d)
    } else {
        let rest = spec_split(s.drop_first(), d);
        rest.update(0, seq![s[0]] + rest[0])
    }
}

/// The needle `n` occurs in `h` starting at position `i`.
pub open spec fn matches_at(h: Seq<u8>, n: Seq<u8>, i: int) -> bool {
    0 <= i && i + n.len() <= h.len() && h.subrange(i, i + n.len()) == n
}

/// The needle `n` occurs somewhere in `h`.
pub open spec fn contains_seq(h: Seq<u8>, n: Seq<u8>) -> bool {
    exists|i: int| matches_at(h, n, i)
}

/// Splitting always yields at least one piece.
pub proof fn lemma_split_len(s: Seq<u8>, d: u8)
    ensures
        spec_split(s, d).len() >= 1,
    decreases s.len(),
{
    if s.len() == 0 {
    } else if s[0] == d {
        lemma_split_len(s.drop_first(), d);
    } else {
        lemma_split_len(s.drop_first(), d);
    }
}

/// ASCII lower-casing of one byte.
pub fn lower_byte(b: u8) -> (r: u8)
    ensures
        r == spec_lower_byte(b),
{
    if 65 <= b && b <= 90 {
        b + 32
    } else {
        b
    }
}

/// ASCII lower-casing of a byte string.
pub fn lower_bytes(s: &[u8]) -> (r: Vec<u8>)
    ensures
        r@ == spec_lower(s@),
{
    let mut r: Vec<u8> = Vec::new();
    let mut i: usize = 0;
    while i < s.len()
        invariant
            i <= s.len(),
            r@ == spec_lower(s@).subrange(0, i as int),
        decreases s.len() - i,
    {
        r.push(lower_byte(s[i]));
        i = i + 1;
        proof {
            assert(r@ =~= spec_lower(s@).subrange(0, i as int));
        }
    }
    proof {
        assert(r@ =~= spec_lower(s@));
    }
    r
}

/// A fresh copy of a byte string.
pub fn copy_bytes(s: &[u8]) -> (r: Vec<u8>)
    ensures
        r@ == s@,
{
    let mut r: Vec<u8> = Vec::new();
    let mut i: usize = 0;
    while i < s.len()
        invariant
            i <= s.len(),
            r@ =~= s@.subrange(0, i as int),
        decreases s.len() - i,
    {
        r.push(s[i]);
        i = i + 1;
    }
    proof {
        assert(r@ =~= s@);
    }
    r
}

/// The bytes of `s` from position `from` on.
pub fn tail_bytes(s: &[u8], from: usize) -> (r: Vec<u8>)
    requires
        from <= s@.len(),
    ensures
        r@ == s@.skip(from as int),
{
    let mut r: Vec<u8> = Vec::new();
    let mut i: usize = from;
    while i < s.len()
        invariant
            from <= i <= s.len(),
            r@ =~= s@.subrange(from as int, i as int),
        decreases s.len() - i,
    {
        r.push(s[i]);
        i = i + 1;
    }
    proof {
        assert(r@ =~= s@.skip(from as int));
    }
    r
}

/// Append a byte string to a byte vector.
pub fn append_bytes(v: &mut Vec<u8>, s: &[u8])
    ensures
        final(v)@ == old(v)@ + s@,
{
    let mut i: usize = 0;
    while i < s.len()
        invariant
            i <= s.len(),
            v@ =~= old(v)@ + s@.subrange(0, i as int),
        decreases s.len() - i,
    {
        v.push(s[i]);
        i = i + 1;
    }
    proof {
        assert(v@ =~= old(v)@ + s@);
    }
}

/// A copy of the bytes of `s` between positions `from` and `to`.
pub fn range_bytes(s: &[u8], from: usize, to: usize) -> (r: Vec<u8>)
    requires
        from <= to <= s@.len(),
    ensures
        r@ == s@.subrange(from as int, to as int),
{
    let mut r: Vec<u8> = Vec::new();
    let mut i: usize = from;
    while i < to
        invariant
            from <= i <= to <= s@.len(),
            r@ =~= s@.subrange(from as int, i as int),
        decreases to - i,
    {
        r.push(s[i]);
        i = i + 1;
    }
    proof {
        assert(r@ =~= s@.subrange(from as int, to as int));
    }
    r
}

/// Exact equality of two byte strings.
pub fn bytes_eq(a: &[u8], b: &[u8]) -> (r: bool)
    ensures
        r == (a@ == b@),
{
    if a.len() != b.len() {
        proof {
            assert(a@.len() != b@.len());
        }
        return false;
    }
    let mut i: usize = 0;
    while i < a.len()
        invariant
            i <= a.len(),
            a@.len() == b@.len(),
            forall|j: int| 0 <= j < i ==> a@[j] == b@[j],
        decreases a.len() - i,
    {
        if a[i] != b[i] {
            return false;
        }
        i = i + 1;
    }
    proof {
        assert(a@ =~= b@);
    }
    true
}

/// `ps` with `c` prepended to its first piece.
pub open spec fn splice_first(c: Seq<u8>, ps: Seq<Seq<u8>>) -> Seq<Seq<u8>>
    recommends
        ps.len() >= 1,
{
    ps.update(0, c + ps[0])
}

/// The pieces of `s` between occurrences of `d`, as byte vectors.
pub fn split_bytes(s: &[u8], d: u8) -> (r: Vec<Vec<u8>>)
    ensures
        r.deep_view() == spec_split(s@, d),
{
    let mut done: Vec<Vec<u8>> = Vec::new();
    let mut cur: Vec<u8> = Vec::new();
    let mut i: usize = 0;
    proof {
        lemma_split_len(s@, d);
        assert(s@.skip(0) =~= s@);
        assert(splice_first(cur@, spec_split(s@, d)) =~~= spec_split(s@, d));
    }
    while i < s.len()
        invariant
            i <= s.len(),
            spec_split(s@.skip(i as int), d).len() >= 1,
            spec_split(s@, d) == done.deep_view() + splice_first(
                cur@,
                spec_split(s@.skip(i as int), d),
            ),
        decreases s.len() - i,
    {
        let ghost pre = s@.skip(i as int);
        let ghost rest = s@.skip(i as int + 1);
        proof {
            lemma_split_len(rest, d);
            assert(pre.drop_first() =~= rest);
            assert(pre[0] == s@[i as int]);
        }
        let ghost olddone = done.deep_view();
        let ghost oldcur = cur@;
        if s[i] == d {
            done.push(cur);
            cur = Vec::new();
            proof {
                let x = spec_split(rest, d);
                assert(spec_split(pre, d) == seq![Seq::<u8>::empty()] + x);
                assert(done.deep_view() =~~= olddone.push(oldcur));
                assert(splice_first(oldcur, seq![Seq::<u8>::empty()] + x) =~~= seq![oldcur] + x);
                assert(splice_first(Seq::<u8>::empty(), x) =~~= x);
                assert(olddone + (seq![oldcur] + x) =~~= olddone.push(oldcur) + x);
            }
        } else {
            cur.push(s[i]);
            proof {
                let x = spec_split(rest, d);
                assert(spec_split(pre, d) == x.update(0, seq![s@[i as int]] + x[0]));
                assert(splice_first(oldcur, x.update(0, seq![s@[i as int]] + x[0])) =~~= splice_first(
                    cur@,
                    x,
                ));
            }
        }
        i = i + 1;
    }
    proof {
        assert(s@.skip(s@.len() as int) =~= Seq::<u8>::empty());
        assert(spec_split(Seq::<u8>::empty(), d) == seq![Seq::<u8>::empty()]);
        assert(splice_first(cur@, seq![Seq::<u8>::empty()]) =~~= seq![cur@]);
    }
    let ghost olddone = done.deep_view();
    let ghost lastcur = cur@;
    done.push(cur);
    proof {
        assert(done.deep_view() =~~= olddone.push(lastcur));
        assert(olddone.push(lastcur) =~~= olddone + seq![lastcur]);
        assert(done.deep_view() =~~= spec_split(s@, d));
    }
    done
}

/// The position of the first occurrence of `n` in `h`, or `-1` if there is
/// none.
pub open spec fn spec_first_match(h: Seq<u8>, n: Seq<u8>) -> int
    decreases h.len(),
{
    if matches_at(h, n, 0) {
        0
    } else if h.len() == 0 {
        -1
    } else {
        let r = spec_first_match(h.drop_first(), n);
        if r < 0 {
            -1
        } else {
            r + 1
        }
    }
}

/// An occurrence one position further in is an occurrence of the rest.
pub proof fn lemma_matches_at_shift(h: Seq<u8>, n: Seq<u8>, i: int)
    requires
        h.len() > 0,
        i >= 0,
    ensures
        matches_at(h, n, i + 1) == matches_at(h.drop_first(), n, i),
{
    if i + 1 + n.len() <= h.len() {
        assert(h.subrange(i + 1, i + 1 + n.len()) =~= h.drop_first().subrange(i, i + n.len()));
    }
}

/// `spec_first_match` finds the first occurrence when there is one, and
/// `-1` exactly when there is none.
pub proof fn lemma_first_match(h: Seq<u8>, n: Seq<u8>)
    ensures
        spec_first_match(h, n) >= 0 ==> {
            &&& matches_at(h, n, spec_first_match(h, n))
            &&& forall|j: int| 0 <= j < spec_first_match(h, n) ==> !matches_at(h, n, j)
        },
        spec_first_match(h, n) < 0 ==> !contains_seq(h, n),
    decreases h.len(),
{
    if !matches_at(h, n, 0) && h.len() > 0 {
        lemma_first_match(h.drop_first(), n);
        let r = spec_first_match(h.drop_first(), n);
        assert forall|j: int| 0 <= j implies matches_at(h, n, j + 1) == matches_at(
            h.drop_first(),
            n,
            j,
        ) by {
            lemma_matches_at_shift(h, n, j);
        }
        if r >= 0 {
            assert(matches_at(h, n, r + 1));
            assert forall|j: int| 0 <= j < r + 1 implies !matches_at(h, n, j) by {
                if j > 0 {
                    assert(!matches_at(h.drop_first(), n, j - 1));
                }
            }
        } else {
            assert forall|j: int| true implies !matches_at(h, n, j) by {
                if j > 0 {
                    assert(!matches_at(h.drop_first(), n, j - 1));
                }
            }
        }
    }
}

/// The position of the first occurrence of `n` in `h`, if any.
pub fn find_sub(h: &[u8], n: &[u8]) -> (r: Option<usize>)
    ensures
        match r {
            Some(i) => i as int == spec_first_match(h@, n@),
            None => spec_first_match(h@, n@) < 0,
        },
{
    proof {
        lemma_first_match(h@, n@);
    }
    if n.len() > h.len() {
        proof {
            assert(forall|i: int| !matches_at(h@, n@, i));
        }
        return None;
    }
    let mut i: usize = 0;
    while i <= h.len() - n.len()
        invariant
            n.len() <= h.len(),
            i <= h.len() - n.len() + 1,
            forall|j: int| 0 <= j < i ==> !matches_at(h@, n@, j),
            spec_first_match(h@, n@) >= 0 ==> matches_at(h@, n@, spec_first_match(h@, n@))
                && (forall|j: int| 0 <= j < spec_first_match(h@, n@) ==> !matches_at(h@, n@, j)),
            spec_first_match(h@, n@) < 0 ==> !contains_seq(h@, n@),
        decreases h.len() + 1 - i,
    {
        let mut k: usize = 0;
        let mut hit = true;
        while k < n.len()
            invariant_except_break
                hit,
                forall|j: int| 0 <= j < k ==> h@[i + j] == n@[j],
            invariant
                k <= n.len(),
                i + n.len() <= h.len(),
            ensures
                hit ==> k == n.len() && (forall|j: int| 0 <= j < k ==> h@[i + j] == n@[j]),
                !hit ==> k < n.len() && h@[i + k] != n@[k as int],
            decreases n.len() - k,
        {
            if h[i + k] != n[k] {
                hit = false;
                break;
            }
            k = k + 1;
        }
        if hit {
            proof {
                assert(h@.subrange(i as int, i + n@.len()) =~= n@);
                assert(matches_at(h@, n@, i as int));
                assert(spec_first_match(h@, n@) == i as int);
            }
            return Some(i);
        }
        proof {
            assert(h@.subrange(i as int, i + n@.len())[k as int] != n@[k as int]);
            assert(!matches_at(h@, n@, i as int));
        }
        i = i + 1;
    }
    proof {
        assert(forall|j: int| j >= i ==> !matches_at(h@, n@, j));
    }
    None
}

/// Does the needle `n` occur anywhere in `h`?
pub fn contains_sub(h: &[u8], n: &[u8]) -> (r: bool)
    ensures
        r == contains_seq(h@, n@),
{
    if n.len() > h.len() {
        proof {
            assert(forall|i: int| !matches_at(h@, n@, i));
        }
        return false;
    }
    let mut i: usize = 0;
    while i <= h.len() - n.len()
        invariant
            n.len() <= h.len(),
            i <= h.len() - n.len() + 1,
            forall|j: int| 0 <= j < i ==> !matches_at(h@, n@, j),
        decreases h.len() + 1 - i,
    {
        let mut k: usize = 0;
        let mut hit = true;
        while k < n.len()
            invariant_except_break
                hit,
                forall|j: int| 0 <= j < k ==> h@[i + j] == n@[j],
            invariant
                k <= n.len(),
                i + n.len() <= h.len(),
            ensures
                hit ==> k == n.len() && (forall|j: int| 0 <= j < k ==> h@[i + j] == n@[j]),
                !hit ==> k < n.len() && h@[i + k] != n@[k as int],
            decreases n.len() - k,
        {
            if h[i + k] != n[k] {
                hit = false;
                break;
            }
            k = k + 1;
        }
        if hit {
            proof {
                assert(h@.subrange(i as int, i + n@.len()) =~= n@);
                assert(matches_at(h@, n@, i as int));
            }
            return true;
        }
        proof {
            assert(h@.subrange(i as int, i + n@.len())[k as int] != n@[k as int]);
            assert(!matches_at(h@, n@, i as int));
        }
        i = i + 1;
    }
    proof {
        assert(forall|j: int| j >= i ==> !matches_at(h@, n@, j));
    }
    false
}

/// Dropping one leading whitespace byte commutes with full leading trim.
pub proof fn lemma_trim_start_step(s: Seq<u8>)
    requires
        s.len() > 0,
        is_ows(s[0]),
    ensures
        spec_trim_start(s) == spec_trim_start(s.drop_first()),
{
}

/// Leading trim of `s` is `s` without its first `i` bytes, when those bytes
/// are whitespace and the byte after them (if any) is not.
pub proof fn lemma_trim_start_at(s: Seq<u8>, i: int)
    requires
        0 <= i <= s.len(),
        forall|j: int| 0 <= j < i ==> is_ows(s[j]),
        i < s.len() ==> !is_ows(s[i]),
    ensures
        spec_trim_start(s) == s.skip(i),
    decreases i,
{
    if i == 0 {
        assert(s.skip(0) =~= s);
    } else {
        lemma_trim_start_step(s);
        lemma_trim_start_at(s.drop_first(), i - 1);
        assert(s.drop_first().skip(i - 1) =~= s.skip(i));
    }
}

/// Trailing trim of `s` is its first `i` bytes, when everything after them
/// is whitespace and the byte at `i - 1` (if any) is not.
pub proof fn lemma_trim_end_at(s: Seq<u8>, i: int)
    requires
        0 <= i <= s.len(),
        forall|j: int| i <= j < s.len() ==> is_ows(s[j]),
        i > 0 ==> !is_ows(s[i - 1]),
    ensures
        spec_trim_end(s) == s.take(i),
    decreases s.len() - i,
{
    if i == s.len() {
        assert(s.take(i) =~= s);
    } else {
        assert(is_ows(s.last()));
        lemma_trim_end_at(s.drop_last(), i);
        assert(s.drop_last().take(i) =~= s.take(i));
    }
}

/// `s` without leading and trailing optional whitespace.
pub fn trim_bytes(s: &[u8]) -> (r: Vec<u8>)
    ensures
        r@ == spec_trim(s@),
{
    let mut lo: usize = 0;
    while lo < s.len() && (s[lo] == 32 || s[lo] == 9)
        invariant
            lo <= s.len(),
            forall|j: int| 0 <= j < lo ==> is_ows(s@[j]),
        decreases s.len() - lo,
    {
        lo = lo + 1;
    }
    proof {
        lemma_trim_start_at(s@, lo as int);
    }
    let ghost t = spec_trim_start(s@);
    let mut hi: usize = s.len();
    while hi > lo && (s[hi - 1] == 32 || s[hi - 1] == 9)
        invariant
            lo <= hi <= s.len(),
            t == s@.skip(lo as int),
            forall|j: int| hi <= j < s.len() ==> is_ows(s@[j]),
        decreases hi,
    {
        hi = hi - 1;
    }
    proof {
        assert(forall|j: int| #![auto] 0 <= j < t.len() ==> t[j] == s@[j + lo]);
        lemma_trim_end_at(t, hi - lo);
    }
    let mut r: Vec<u8> = Vec::new();
    let mut i: usize = lo;
    while i < hi
        invariant
            lo <= i <= hi <= s.len(),
            r@ =~= s@.subrange(lo as int, i as int),
        decreases hi - i,
    {
        r.push(s[i]);
        i = i + 1;
    }
    proof {
        assert(r@ =~= t.take(hi - lo as int));
    }
    r
}

/// Does `s` start with `prefix`?
pub fn starts_with(s: &[u8], prefix: &[u8]) -> (r: bool)
    ensures
        r == (prefix@.len() <= s@.len() && s@.subrange(0, prefix@.len() as int) == prefix@),
{
    if s.len() < prefix.len() {
        return false;
    }
    let mut i: usize = 0;
    while i < prefix.len()
        invariant
            i <= prefix.len(),
            prefix.len() <= s.len(),
            forall|j: int| 0 <= j < i ==> s@[j] == prefix@[j],
        decreases prefix.len() - i,
    {
        if s[i] != prefix[i] {
            proof {
                assert(s@.subrange(0, prefix@.len() as int)[i as int] != prefix@[i as int]);
            }
            return false;
        }
        i = i + 1;
    }
    proof {
        assert(s@.subrange(0, prefix@.len() as int) =~= prefix@);
    }
    true
}

} // verus!

verus! {

/// The bytes of a sequence of ASCII characters, character by character.
pub open spec fn bytes_of(s: Seq<char>) -> Seq<u8> {
    s.map_values(|c: char| c as u8)
}

/// The bytes of an ASCII string literal.
pub fn str_bytes(s: &str) -> (r: &[u8])
    requires
        vstd::string::is_ascii(s),
    ensures
        r@ == bytes_of(s@),
{
    proof {
        broadcast use vstd::string::is_ascii_spec_bytes;
        assert(vstd::string::StringSliceAdditionalSpecFns::spec_bytes(s) =~= bytes_of(s@));
    }
    s.as_bytes()
}

} // verus!
verus! {

/// A string without the delimiter splits into itself alone.
pub proof fn lemma_split_nodelim(s: Seq<u8>, d: u8)
    requires
        forall|i: int| 0 <= i < s.len() ==> s[i] != d,
    ensures
        spec_split(s, d) == seq![s],
    decreases s.len(),
{
    reveal_with_fuel(spec_split, 2);
    if s.len() == 0 {
        assert(spec_split(s, d) =~~= seq![s]);
    } else {
        lemma_split_nodelim(s.drop_first(), d);
        assert(spec_split(s, d) =~~= seq![s]);
    }
}

/// Splitting after a delimiter-free prefix splices the prefix onto the
/// first piece of the rest.
pub proof fn lemma_split_concat_nodelim(a: Seq<u8>, b: Seq<u8>, d: u8)
    requires
        forall|i: int| 0 <= i < a.len() ==> a[i] != d,
    ensures
        spec_split(a + b, d).len() >= 1,
        spec_split(a + b, d) == splice_first(a, spec_split(b, d)),
    decreases a.len(),
{
    lemma_split_len(b, d);
    lemma_split_len(a + b, d);
    if a.len() == 0 {
        assert(a + b =~= b);
        assert(splice_first(a, spec_split(b, d)) =~~= spec_split(b, d));
    } else {
        assert((a + b).drop_first() =~= a.drop_first() + b);
        lemma_split_concat_nodelim(a.drop_first(), b, d);
        assert((a + b)[0] == a[0]);
        let rest = spec_split(a.drop_first() + b, d);
        assert(spec_split(a + b, d) == rest.update(0, seq![a[0]] + rest[0]));
        assert(rest.update(0, seq![a[0]] + rest[0]) =~~= splice_first(a, spec_split(b, d)));
    }
}

/// `p` occurs as the contiguous part of `s` that starts at `k`.
pub open spec fn is_contig_piece(s: Seq<u8>, p: Seq<u8>, k: int) -> bool {
    0 <= k && k + p.len() <= s.len() && p == s.subrange(k, k + p.len() as int)
}

/// The first piece of a split is a prefix of the split string.
pub proof fn lemma_split_first_prefix(s: Seq<u8>, d: u8)
    ensures
        spec_split(s, d).len() >= 1,
        spec_split(s, d)[0].len() <= s.len(),
        spec_split(s, d)[0] == s.subrange(0, spec_split(s, d)[0].len() as int),
    decreases s.len(),
{
    lemma_split_len(s, d);
    let ps = spec_split(s, d);
    if s.len() == 0 {
        assert(ps[0] =~= s.subrange(0, 0));
    } else if s[0] == d {
        assert(ps[0] =~= s.subrange(0, 0));
    } else {
        lemma_split_first_prefix(s.drop_first(), d);
        let rest = spec_split(s.drop_first(), d);
        assert(ps[0] == seq![s[0]] + rest[0]);
        assert(ps[0] =~= s.subrange(0, ps[0].len() as int));
    }
}

/// Each piece of a split is a contiguous part of the split string.
pub proof fn lemma_split_piece_contig_at(s: Seq<u8>, d: u8, i: int)
    requires
        0 <= i < spec_split(s, d).len(),
    ensures
        exists|k: int| is_contig_piece(s, spec_split(s, d)[i], k),
    decreases s.len(),
{
    lemma_split_len(s, d);
    let ps = spec_split(s, d);
    if s.len() == 0 {
        assert(ps[i] =~= s.subrange(0, 0));
        assert(is_contig_piece(s, ps[i], 0));
    } else if s[0] == d {
        if i == 0 {
            assert(ps[0] =~= s.subrange(0, 0));
            assert(is_contig_piece(s, ps[0], 0));
        } else {
            let rest = spec_split(s.drop_first(), d);
            assert(ps[i] == rest[i - 1]);
            lemma_split_piece_contig_at(s.drop_first(), d, i - 1);
            let k = choose|k: int| #[trigger] is_contig_piece(s.drop_first(), rest[i - 1], k);
            assert(s.drop_first().subrange(k, k + rest[i - 1].len() as int) =~= s.subrange(
                k + 1,
                k + 1 + rest[i - 1].len() as int,
            ));
            assert(is_contig_piece(s, ps[i], k + 1));
        }
    } else {
        let rest = spec_split(s.drop_first(), d);
        lemma_split_len(s.drop_first(), d);
        assert(ps == rest.update(0, seq![s[0]] + rest[0]));
        assert(ps.len() == rest.len());
        if i == 0 {
            lemma_split_first_prefix(s, d);
            assert(is_contig_piece(s, ps[0], 0));
        } else {
            assert(ps[i] == rest[i]);
            lemma_split_piece_contig_at(s.drop_first(), d, i);
            let k = choose|k: int| #[trigger] is_contig_piece(s.drop_first(), rest[i], k);
            assert(s.drop_first().subrange(k, k + rest[i].len() as int) =~= s.subrange(
                k + 1,
                k + 1 + rest[i].len() as int,
            ));
            assert(is_contig_piece(s, ps[i], k + 1));
        }
    }
}

/// Trimming yields a contiguous part of the text.
pub proof fn lemma_trim_is_subrange(p: Seq<u8>)
    ensures
        exists|a: int, b: int|
            0 <= a <= b <= p.len() && spec_trim(p) == p.subrange(a, b),
{
    lemma_trim_start_is_suffix(p);
    let a = choose|a: int| 0 <= a <= p.len() && spec_trim_start(p) == p.subrange(a, p.len() as int);
    let q = spec_trim_start(p);
    lemma_trim_end_is_prefix(q);
    let b = choose|b: int| 0 <= b <= q.len() && spec_trim_end(q) == q.subrange(0, b);
    assert(q.subrange(0, b) =~= p.subrange(a, a + b));
    assert(spec_trim(p) == p.subrange(a, a + b));
}

/// Leading trim keeps a suffix.
pub proof fn lemma_trim_start_is_suffix(p: Seq<u8>)
    ensures
        exists|a: int|
            0 <= a <= p.len() && spec_trim_start(p) == p.subrange(a, p.len() as int),
    decreases p.len(),
{
    if p.len() > 0 && is_ows(p[0]) {
        lemma_trim_start_is_suffix(p.drop_first());
        let a = choose|a: int|
            0 <= a <= p.drop_first().len() && spec_trim_start(p.drop_first())
                == p.drop_first().subrange(a, p.drop_first().len() as int);
        assert(p.drop_first().subrange(a, p.drop_first().len() as int) =~= p.subrange(
            a + 1,
            p.len() as int,
        ));
        assert(spec_trim_start(p) == p.subrange(a + 1, p.len() as int));
    } else {
        assert(spec_trim_start(p) =~= p.subrange(0, p.len() as int));
    }
}

/// Trailing trim keeps a prefix.
pub proof fn lemma_trim_end_is_prefix(p: Seq<u8>)
    ensures
        exists|b: int| 0 <= b <= p.len() && spec_trim_end(p) == p.subrange(0, b),
    decreases p.len(),
{
    if p.len() > 0 && is_ows(p.last()) {
        lemma_trim_end_is_prefix(p.drop_last());
        let b = choose|b: int|
            0 <= b <= p.drop_last().len() && spec_trim_end(p.drop_last()) == p.drop_last().subrange(
                0,
                b,
            );
        assert(p.drop_last().subrange(0, b) =~= p.subrange(0, b));
        assert(spec_trim_end(p) == p.subrange(0, b));
    } else {
        assert(spec_trim_end(p) =~= p.subrange(0, p.len() as int));
    }
}

/// Trimming ignores one added leading space.
pub proof fn lemma_trim_space_prefix(p: Seq<u8>)
    ensures
        spec_trim(seq![32u8] + p) == spec_trim(p),
{
    assert((seq![32u8] + p).drop_first() =~= p);
    assert(spec_trim_start(seq![32u8] + p) == spec_trim_start(p));
}

} // verus!
