//! Reading the logging settings out of their configuration text: the
//! roll-over size (`100MB`), the retention rule (`KeepNum(5)`), and the log
//! level (`info`). Initialising the actual logger happens at the program's
//! edge; these functions only decide what the text means.

use vstd::prelude::*;

use crate::ascii::{
    bytes_eq, bytes_of, spec_first_match, find_sub, lemma_first_match, matches_at, range_bytes,
    starts_with, str_bytes, tail_bytes,
};

verus! {

/// Every byte of `s` is a decimal digit, and there is at least one.
pub open spec fn spec_digits(s: Seq<u8>) -> bool {
    s.len() > 0 && forall|i: int| 0 <= i < s.len() ==> 48 <= #[trigger] s[i] <= 57
}

/// The number the decimal digits of `s` write.
pub open spec fn spec_digits_val(s: Seq<u8>) -> int
    decreases s.len(),
{
    if s.len() == 0 {
        0
    } else {
        spec_digits_val(s.drop_last()) * 10 + (s.last() - 48)
    }
}

/// A longer digit string never writes a smaller number.
proof fn lemma_digits_val_prefix(s: Seq<u8>, i: int)
    requires
        0 <= i <= s.len(),
        forall|j: int| 0 <= j < s.len() ==> 48 <= #[trigger] s[j] <= 57,
    ensures
        spec_digits_val(s.take(i)) <= spec_digits_val(s),
        spec_digits_val(s) >= 0,
    decreases s.len() - i,
{
    if i == s.len() {
        assert(s.take(i) =~= s);
        lemma_digits_val_nonneg(s);
    } else {
        lemma_digits_val_prefix(s, i + 1);
        lemma_digits_val_nonneg(s.take(i));
        assert(s.take(i + 1).drop_last() =~= s.take(i));
        assert(spec_digits_val(s.take(i + 1)) == spec_digits_val(s.take(i)) * 10 + (s[i] - 48));
    }
}

/// A digit string writes a non-negative number.
proof fn lemma_digits_val_nonneg(s: Seq<u8>)
    requires
        forall|j: int| 0 <= j < s.len() ==> 48 <= #[trigger] s[j] <= 57,
    ensures
        spec_digits_val(s) >= 0,
    decreases s.len(),
{
    if s.len() > 0 {
        lemma_digits_val_nonneg(s.drop_last());
    }
}

/// Parse an unsigned decimal number. `None` when `s` is empty, holds a
/// non-digit, or writes a number too large for the type.
pub fn parse_u64(s: &[u8]) -> (r: Option<u64>)
    ensures
        match r {
            Some(v) => spec_digits(s@) && v == spec_digits_val(s@),
            None => !(spec_digits(s@) && spec_digits_val(s@) <= u64::MAX),
        },
{
    if s.len() == 0 {
        return None;
    }
    let mut acc: u64 = 0;
    let mut i: usize = 0;
    while i < s.len()
        invariant
            i <= s.len(),
            s@.len() > 0,
            forall|j: int| 0 <= j < i ==> 48 <= #[trigger] s@[j] <= 57,
            acc == spec_digits_val(s@.take(i as int)),
        decreases s.len() - i,
    {
        let b = s[i];
        if !(48 <= b && b <= 57) {
            return None;
        }
        let next = match acc.checked_mul(10) {
            Some(m) => m.checked_add((b - 48) as u64),
            None => None,
        };
        match next {
            Some(v) => {
                acc = v;
                proof {
                    assert(s@.take(i as int + 1).drop_last() =~= s@.take(i as int));
                }
            },
            None => {
                proof {
                    assert(s@.take(i as int + 1).drop_last() =~= s@.take(i as int));
                    if spec_digits(s@) {
                        lemma_digits_val_prefix(s@, i as int + 1);
                    }
                }
                return None;
            },
        }
        i = i + 1;
    }
    proof {
        assert(s@.take(s@.len() as int) =~= s@);
    }
    Some(acc)
}

/// The size at which a log file rolls over.
pub enum LogSize {
    /// So many kibibytes.
    KB(usize),
    /// So many mebibytes.
    MB(usize),
    /// So many gibibytes.
    GB(usize),
}

/// The digits of `s` before the first occurrence of the suffix `n`.
pub open spec fn spec_size_digits(s: Seq<u8>, n: Seq<u8>) -> Seq<u8> {
    s.take(spec_first_match(s, n))
}

/// `s` ends with the two-byte suffix `n`.
pub open spec fn spec_ends_with(s: Seq<u8>, n: Seq<u8>) -> bool {
    n.len() <= s.len() && s.subrange(s.len() - n.len(), s.len() as int) == n
}

/// The suffix case of a size text that applies: which of `MB`, `KB`, `GB`
/// the text ends with, in that order of precedence.
pub open spec fn spec_size_case(s: Seq<u8>) -> Option<Seq<u8>> {
    if spec_ends_with(s, bytes_of("MB"@)) {
        Some(bytes_of("MB"@))
    } else if spec_ends_with(s, bytes_of("KB"@)) {
        Some(bytes_of("KB"@))
    } else if spec_ends_with(s, bytes_of("GB"@)) {
        Some(bytes_of("GB"@))
    } else {
        None
    }
}

/// What a roll-over size text means: the number before its size suffix, in
/// that suffix's unit, or the 100-mebibyte fallback.
pub open spec fn spec_str_to_temp_size(s: Seq<u8>) -> LogSize {
    if spec_ends_with(s, bytes_of("MB"@)) {
        LogSize::MB(spec_digits_val(spec_size_digits(s, bytes_of("MB"@))) as usize)
    } else if spec_ends_with(s, bytes_of("KB"@)) {
        LogSize::KB(spec_digits_val(spec_size_digits(s, bytes_of("KB"@))) as usize)
    } else if spec_ends_with(s, bytes_of("GB"@)) {
        LogSize::GB(spec_digits_val(spec_size_digits(s, bytes_of("GB"@))) as usize)
    } else {
        LogSize::MB(100)
    }
}

/// `s` ends with `n`, checked.
pub fn ends_with(s: &[u8], n: &[u8]) -> (r: bool)
    ensures
        r == spec_ends_with(s@, n@),
{
    if n.len() > s.len() {
        return false;
    }
    let tail = tail_bytes(s, s.len() - n.len());
    proof {
        assert(tail@ =~= s@.subrange(s@.len() - n@.len(), s@.len() as int));
    }
    bytes_eq(tail.as_slice(), n)
}

/// Read a roll-over size such as `100MB`. A text with none of the size
/// suffixes falls back to 100 mebibytes; with a suffix, the digits before
/// its first occurrence must write a number that fits.
pub fn str_to_temp_size(arg: &[u8]) -> (r: LogSize)
    requires
        spec_size_case(arg@) matches Some(n) ==> {
            let d = spec_size_digits(arg@, n);
            spec_digits(d) && spec_digits_val(d) <= usize::MAX
        },
    ensures
        r == spec_str_to_temp_size(arg@),
{
    proof {
        reveal_strlit("MB");
        reveal_strlit("KB");
        reveal_strlit("GB");
    }
    let mb = str_bytes("MB");
    let kb = str_bytes("KB");
    let gb = str_bytes("GB");
    if ends_with(arg, mb) {
        let v = parse_size_digits(arg, mb);
        LogSize::MB(v)
    } else if ends_with(arg, kb) {
        let v = parse_size_digits(arg, kb);
        LogSize::KB(v)
    } else if ends_with(arg, gb) {
        let v = parse_size_digits(arg, gb);
        LogSize::GB(v)
    } else {
        LogSize::MB(100)
    }
}

/// The number before the first occurrence of the size suffix `n`.
fn parse_size_digits(arg: &[u8], n: &[u8]) -> (r: usize)
    requires
        spec_ends_with(arg@, n@),
        n@.len() > 0,
        spec_digits(spec_size_digits(arg@, n@)),
        spec_digits_val(spec_size_digits(arg@, n@)) <= usize::MAX,
    ensures
        r == spec_digits_val(spec_size_digits(arg@, n@)),
{
    proof {
        lemma_first_match(arg@, n@);
        assert(matches_at(arg@, n@, arg@.len() - n@.len()));
    }
    let end = match find_sub(arg, n) {
        Some(i) => i,
        None => {
            proof {
                assert(false);
            }
            0
        },
    };
    let digits = range_bytes(arg, 0, end);
    proof {
        assert(digits@ =~= spec_size_digits(arg@, n@));
    }
    match parse_u64(digits.as_slice()) {
        Some(v) => v as usize,
        None => {
            proof {
                assert(false);
            }
            0
        },
    }
}

/// Which rolled log files are kept.
pub enum RollingType {
    /// All of them.
    All,
    /// The newest so many.
    KeepNum(i64),
    /// Those younger than so many seconds.
    KeepTime(u64),
}

/// The signed number a text writes: an optional sign and decimal digits.
pub open spec fn spec_int_text_val(s: Seq<u8>) -> Option<int> {
    if s.len() > 0 && (s[0] == 43 || s[0] == 45) {
        if spec_digits(s.drop_first()) {
            Some(
                if s[0] == 45 {
                    -spec_digits_val(s.drop_first())
                } else {
                    spec_digits_val(s.drop_first())
                },
            )
        } else {
            None
        }
    } else if spec_digits(s) {
        Some(spec_digits_val(s))
    } else {
        None
    }
}

/// The text between the opening parenthesis that follows the rule's name
/// and the first closing parenthesis.
pub open spec fn spec_paren_arg(s: Seq<u8>, prefix_len: int) -> Seq<u8> {
    s.subrange(prefix_len, spec_first_match(s, bytes_of(")"@)))
}

/// Read a retention rule such as `KeepNum(5)` or `KeepTime(3600)`. A text
/// that names neither rule keeps all files. A named rule must close its
/// parenthesis and hold a number that fits.
pub fn str_to_rolling(arg: &[u8]) -> (r: RollingType)
    requires
        arg@.len() >= 8 && arg@.subrange(0, 8) == bytes_of("KeepNum("@) ==> {
            &&& crate::ascii::contains_seq(arg@, bytes_of(")"@))
            &&& (spec_int_text_val(spec_paren_arg(arg@, 8)) matches Some(v) && i64::MIN <= v
                <= i64::MAX)
        },
        !(arg@.len() >= 8 && arg@.subrange(0, 8) == bytes_of("KeepNum("@)) && arg@.len() >= 9
            && arg@.subrange(0, 9) == bytes_of("KeepTime("@) ==> {
            let d = spec_paren_arg(arg@, 9);
            &&& crate::ascii::contains_seq(arg@, bytes_of(")"@))
            &&& spec_digits(d)
            &&& spec_digits_val(d) <= u64::MAX
        },
    ensures
        arg@.len() >= 8 && arg@.subrange(0, 8) == bytes_of("KeepNum("@) ==> (r
            matches RollingType::KeepNum(v) && Some(v as int) == spec_int_text_val(
            spec_paren_arg(arg@, 8),
        )),
        !(arg@.len() >= 8 && arg@.subrange(0, 8) == bytes_of("KeepNum("@)) && arg@.len() >= 9
            && arg@.subrange(0, 9) == bytes_of("KeepTime("@) ==> (r
            matches RollingType::KeepTime(v) && v == spec_digits_val(spec_paren_arg(arg@, 9))),
        !(arg@.len() >= 8 && arg@.subrange(0, 8) == bytes_of("KeepNum("@)) && !(arg@.len() >= 9
            && arg@.subrange(0, 9) == bytes_of("KeepTime("@)) ==> r is All,
{
    proof {
        reveal_strlit("KeepNum(");
        reveal_strlit("KeepTime(");
        reveal_strlit(")");
    }
    if starts_with(arg, str_bytes("KeepNum(")) {
        let end = find_rparen(arg);
        proof {
            lemma_first_match(arg@, bytes_of(")"@));
            if end < 8 {
                assert(matches_at(arg@, bytes_of(")"@), end as int));
                assert(arg@.subrange(end as int, end as int + 1)[0] == arg@[end as int]);
                assert(arg@.subrange(0, 8)[end as int] == arg@[end as int]);
                assert(false);
            }
        }
        let digits = range_bytes(arg, 8, end);
        proof {
            assert(digits@ =~= spec_paren_arg(arg@, 8));
        }
        RollingType::KeepNum(parse_i64(digits.as_slice()))
    } else if starts_with(arg, str_bytes("KeepTime(")) {
        let end = find_rparen(arg);
        proof {
            lemma_first_match(arg@, bytes_of(")"@));
            if end < 9 {
                assert(matches_at(arg@, bytes_of(")"@), end as int));
                assert(arg@.subrange(end as int, end as int + 1)[0] == arg@[end as int]);
                assert(arg@.subrange(0, 9)[end as int] == arg@[end as int]);
                assert(false);
            }
        }
        let digits = range_bytes(arg, 9, end);
        proof {
            assert(digits@ =~= spec_paren_arg(arg@, 9));
        }
        match parse_u64(digits.as_slice()) {
            Some(v) => RollingType::KeepTime(v),
            None => {
                proof {
                    assert(false);
                }
                RollingType::All
            },
        }
    } else {
        RollingType::All
    }
}

/// The position of the first closing parenthesis.
fn find_rparen(arg: &[u8]) -> (r: usize)
    requires
        crate::ascii::contains_seq(arg@, bytes_of(")"@)),
    ensures
        r as int == spec_first_match(arg@, bytes_of(")"@)),
        r <= arg@.len(),
{
    proof {
        reveal_strlit(")");
        lemma_first_match(arg@, bytes_of(")"@));
    }
    match find_sub(arg, str_bytes(")")) {
        Some(i) => i,
        None => {
            proof {
                assert(false);
            }
            0
        },
    }
}

/// The signed number of a retention count.
fn parse_i64(s: &[u8]) -> (r: i64)
    requires
        spec_int_text_val(s@) matches Some(v) && i64::MIN <= v <= i64::MAX,
    ensures
        Some(r as int) == spec_int_text_val(s@),
{
    if s.len() > 0 && (s[0] == 43 || s[0] == 45) {
        let digits = tail_bytes(s, 1);
        proof {
            assert(digits@ =~= s@.drop_first());
        }
        let mag = match parse_u64(digits.as_slice()) {
            Some(v) => v,
            None => {
                proof {
                    assert(false);
                }
                0
            },
        };
        if s[0] == 45 {
            if mag == 9223372036854775808u64 {
                i64::MIN
            } else {
                proof {
                    assert(mag <= i64::MAX);
                }
                -(mag as i64)
            }
        } else {
            mag as i64
        }
    } else {
        let mag = match parse_u64(s) {
            Some(v) => v,
            None => {
                proof {
                    assert(false);
                }
                0
            },
        };
        mag as i64
    }
}

/// The level the logger writes.
pub enum LevelFilter {
    /// Errors only.
    Error,
    /// Warnings and errors.
    Warn,
    /// The informational level; also the fallback for unknown text.
    Info,
    /// Debugging output.
    Debug,
    /// Everything.
    Trace,
}

/// What a level name means: the named level, with `Info` for unknown
/// text.
pub open spec fn spec_str_to_log_level(s: Seq<u8>) -> LevelFilter {
    if s == bytes_of("warn"@) {
        LevelFilter::Warn
    } else if s == bytes_of("error"@) {
        LevelFilter::Error
    } else if s == bytes_of("trace"@) {
        LevelFilter::Trace
    } else if s == bytes_of("info"@) {
        LevelFilter::Info
    } else if s == bytes_of("debug"@) {
        LevelFilter::Debug
    } else {
        LevelFilter::Info
    }
}

/// Read a log level name; unknown text means `Info`.
pub fn str_to_log_level(arg: &[u8]) -> (r: LevelFilter)
    ensures
        r == spec_str_to_log_level(arg@),
{
    proof {
        reveal_strlit("warn");
        reveal_strlit("error");
        reveal_strlit("trace");
        reveal_strlit("info");
        reveal_strlit("debug");
    }
    if bytes_eq(arg, str_bytes("warn")) {
        LevelFilter::Warn
    } else if bytes_eq(arg, str_bytes("error")) {
        LevelFilter::Error
    } else if bytes_eq(arg, str_bytes("trace")) {
        LevelFilter::Trace
    } else if bytes_eq(arg, str_bytes("info")) {
        LevelFilter::Info
    } else if bytes_eq(arg, str_bytes("debug")) {
        LevelFilter::Debug
    } else {
        LevelFilter::Info
    }
}

} // verus!
