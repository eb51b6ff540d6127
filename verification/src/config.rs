//! The desync policy: which techniques run and where they cut.
//!
//! A policy is built once at startup and never mutated; connections read it
//! concurrently.  [`parse_split_config`] turns one position specification of
//! the command-line mini-DSL, `offset[:repeats[:skip]][+flags]`, into a
//! [`SplitConfig`].

use vstd::prelude::*;
use vstd::string::StringSliceAdditionalSpecFns;

use crate::packets::{all_digits, dec_value};

verus! {

/// Flags of a split rule.  Independent and composable: `sni` and `host`
/// rebase the offset on the located protocol field, `middle` halves it,
/// `end` counts it from the end of the buffer.
#[derive(Clone, Copy, Debug, PartialEq, Eq, Structural)]
pub struct SplitFlags {
    pub sni: bool,
    pub host: bool,
    pub end: bool,
    pub middle: bool,
}

impl Default for SplitFlags {
    /// All flags off.
    fn default() -> (r: Self)
        ensures
            r == (SplitFlags { sni: false, host: false, end: false, middle: false }),
    {
        SplitFlags { sni: false, host: false, end: false, middle: false }
    }
}

/// One split or disorder rule: a signed offset plus the flags that
/// reinterpret it.  `repeats` and `skip` are accepted by the parser but
/// reserved; the transformation engine does not consume them.
#[derive(Clone, Copy, Debug)]
pub struct SplitConfig {
    pub offset: i64,
    pub flags: SplitFlags,
    pub repeats: Option<usize>,
    pub skip: Option<usize>,
}

/// One fake-packet rule: a placement rule, an optional TTL override and
/// optional literal decoy payload bytes.
#[derive(Clone, Debug)]
pub struct FakeConfig {
    pub split: SplitConfig,
    pub ttl: Option<u8>,
    pub data: Option<Vec<u8>>,
}

/// Passive detection signals of the reserved auto-detection configuration.
#[derive(Clone, Copy, Debug)]
pub enum AutoDetect {
    /// Timeout or connection reset.
    Torst,
    /// HTTP redirect.
    Redirect,
    /// SSL error.
    SslErr,
    /// No detection.
    NoDetect,
}

/// Reserved auto-detection configuration: accepted, never acted on.
#[derive(Clone, Debug)]
pub struct AutoConfig {
    pub detect: Vec<AutoDetect>,
    pub timeout: Option<u64>,
}

/// The full desync policy: the rule lists of the three techniques (and the
/// reserved `tls_rec` list), an optional default TTL for fake packets, and
/// the reserved auto-detection configuration.
#[derive(Clone, Debug)]
pub struct DesyncConfig {
    pub split: Vec<SplitConfig>,
    pub disorder: Vec<SplitConfig>,
    pub fake: Vec<FakeConfig>,
    pub tls_rec: Vec<SplitConfig>,
    pub ttl: Option<u8>,
    pub auto: Option<AutoConfig>,
}

impl Default for DesyncConfig {
    /// The empty policy: no technique configured, so every buffer passes
    /// through unchanged.
    fn default() -> (r: Self)
        ensures
            r.split@.len() == 0,
            r.disorder@.len() == 0,
            r.fake@.len() == 0,
            r.tls_rec@.len() == 0,
            r.ttl is None,
            r.auto is None,
    {
        DesyncConfig {
            split: Vec::new(),
            disorder: Vec::new(),
            fake: Vec::new(),
            tls_rec: Vec::new(),
            ttl: None,
            auto: None,
        }
    }
}

/// Error of [`parse_split_config`]: the offset part of the specification is
/// not a decimal 64-bit integer.
#[derive(Clone, Copy, Debug, PartialEq, Eq, Structural)]
pub enum SplitParseError {
    InvalidOffset,
}

/// Position of the first occurrence of `t` in `[i, end)` of `b`, or `None`.
pub open spec fn spec_find_byte(b: Seq<u8>, t: u8, i: int, end: int) -> Option<int>
    decreases end - i,
{
    if i < 0 || i >= end || i >= b.len() {
        None
    } else if b[i] == t {
        Some(i)
    } else {
        spec_find_byte(b, t, i + 1, end)
    }
}

/// One flag letter applied to an accumulator: `s` (sni), `h` (host),
/// `e` (end), `m` (middle); any other byte is ignored.
pub open spec fn apply_flag_byte(f: SplitFlags, c: u8) -> SplitFlags {
    if c == 0x73 {
        SplitFlags { sni: true, ..f }
    } else if c == 0x68 {
        SplitFlags { host: true, ..f }
    } else if c == 0x65 {
        SplitFlags { end: true, ..f }
    } else if c == 0x6d {
        SplitFlags { middle: true, ..f }
    } else {
        f
    }
}

/// The flags collected from the bytes of `b` at positions `[i, b.len())`.
pub open spec fn spec_collect_flags(b: Seq<u8>, i: int, acc: SplitFlags) -> SplitFlags
    decreases b.len() - i,
{
    if 0 <= i < b.len() {
        spec_collect_flags(b, i + 1, apply_flag_byte(acc, b[i]))
    } else {
        acc
    }
}

/// An unsigned decimal number fitting `usize`, or `None`.
pub open spec fn spec_parse_usize(b: Seq<u8>) -> Option<usize> {
    if b.len() > 0 && all_digits(b) && dec_value(b) <= usize::MAX {
        Some(dec_value(b) as usize)
    } else {
        None
    }
}

/// A signed decimal number fitting `i64` (optional leading `-`), or `None`.
pub open spec fn spec_parse_i64(b: Seq<u8>) -> Option<i64> {
    if b.len() > 0 && b[0] == 0x2d {
        let m = b.subrange(1, b.len() as int);
        if m.len() > 0 && all_digits(m) && dec_value(m) <= 0x8000000000000000 {
            Some((-dec_value(m)) as i64)
        } else {
            None
        }
    } else if b.len() > 0 && all_digits(b) && dec_value(b) <= i64::MAX {
        Some(dec_value(b) as i64)
    } else {
        None
    }
}

/// The meaning of one position specification `offset[:repeats[:skip]][+flags]`:
/// everything after the first `+` is read as flag letters; the part before it
/// is split on `:` into the offset (before the first colon), `repeats`
/// (between the first and second) and `skip` (between the second and third).
/// `repeats` and `skip` that fail to parse are silently absent; an offset
/// that fails to parse refuses the whole specification.
pub open spec fn spec_parse_split_config(b: Seq<u8>) -> Option<SplitConfig> {
    let pe = match spec_find_byte(b, 0x2b, 0, b.len() as int) {
        Some(p) => p,
        None => b.len() as int,
    };
    let flags = match spec_find_byte(b, 0x2b, 0, b.len() as int) {
        Some(p) => spec_collect_flags(
            b,
            p + 1,
            SplitFlags { sni: false, host: false, end: false, middle: false },
        ),
        None => SplitFlags { sni: false, host: false, end: false, middle: false },
    };
    let c1 = spec_find_byte(b, 0x3a, 0, pe);
    let offset_end = match c1 {
        Some(c) => c,
        None => pe,
    };
    let repeats = match c1 {
        Some(c) => {
            let r_end = match spec_find_byte(b, 0x3a, c + 1, pe) {
                Some(c2) => c2,
                None => pe,
            };
            spec_parse_usize(b.subrange(c + 1, r_end))
        },
        None => None,
    };
    let skip = match c1 {
        Some(c) => match spec_find_byte(b, 0x3a, c + 1, pe) {
            Some(c2) => {
                let s_end = match spec_find_byte(b, 0x3a, c2 + 1, pe) {
                    Some(c3) => c3,
                    None => pe,
                };
                spec_parse_usize(b.subrange(c2 + 1, s_end))
            },
            None => None,
        },
        None => None,
    };
    match spec_parse_i64(b.subrange(0, offset_end)) {
        Some(o) => Some(SplitConfig { offset: o, flags, repeats, skip }),
        None => None,
    }
}

/// Scan `bytes` for the first occurrence of `t` in `[i, end)`.
#[verifier::loop_isolation(false)]
fn find_byte_from(bytes: &[u8], t: u8, start: usize, end: usize) -> (r: Option<usize>)
    requires
        start <= end <= bytes@.len(),
    ensures
        r matches Some(v) ==> spec_find_byte(bytes@, t, start as int, end as int) == Some(
            v as int,
        ) && start <= v < end,
        r is None ==> spec_find_byte(bytes@, t, start as int, end as int) is None,
{
    let mut i = start;
    while i < end && bytes[i] != t
        invariant
            start <= i <= end,
            spec_find_byte(bytes@, t, start as int, end as int) == spec_find_byte(
                bytes@,
                t,
                i as int,
                end as int,
            ),
        decreases end - i,
    {
        i = i + 1;
    }
    if i < end {
        Some(i)
    } else {
        None
    }
}

/// Parse the decimal digits of `bytes[start..end]` as a `u64`, refusing
/// empty or non-digit input and values above `limit`.
#[verifier::loop_isolation(false)]
fn parse_u64_digits(bytes: &[u8], start: usize, end: usize, limit: u64) -> (r: Option<u64>)
    requires
        start <= end <= bytes@.len(),
        limit >= 9,
    ensures
        ({
            let d = bytes@.subrange(start as int, end as int);
            match r {
                Some(v) => d.len() > 0 && all_digits(d) && dec_value(d) == v && v <= limit,
                None => !(d.len() > 0 && all_digits(d) && dec_value(d) <= limit),
            }
        }),
{
    if start >= end {
        return None;
    }
    let mut val: u64 = 0;
    let mut over: bool = false;
    let mut j = start;
    while j < end
        invariant
            start <= j <= end,
            all_digits(bytes@.subrange(start as int, j as int)),
            !over ==> val == dec_value(bytes@.subrange(start as int, j as int)) && val <= limit,
            over ==> dec_value(bytes@.subrange(start as int, j as int)) > limit,
        decreases end - j,
    {
        let d = bytes[j];
        if d < 0x30 || d > 0x39 {
            proof {
                assert(bytes@.subrange(start as int, end as int)[j - start] == d);
            }
            return None;
        }
        let dv = (d - 0x30) as u64;
        proof {
            assert(bytes@.subrange(start as int, j + 1).drop_last() =~= bytes@.subrange(
                start as int,
                j as int,
            ));
            assert(bytes@.subrange(start as int, j + 1).last() == d);
        }
        if !over {
            if val > (limit - dv) / 10 {
                proof {
                    let l = limit as int;
                    let dvi = dv as int;
                    assert(((l - dvi) / 10) * 10 + (l - dvi) % 10 == l - dvi);
                    assert(val * 10 + dvi > l);
                }
                over = true;
            } else {
                proof {
                    let l = limit as int;
                    let dvi = dv as int;
                    assert(((l - dvi) / 10) * 10 + (l - dvi) % 10 == l - dvi);
                    assert(val * 10 <= ((l - dvi) / 10) * 10);
                    assert(val * 10 + dvi <= l);
                }
                val = val * 10 + dv;
            }
        }
        j = j + 1;
    }
    if over {
        None
    } else {
        Some(val)
    }
}

/// Parse one position specification of the mini-DSL,
/// `offset[:repeats[:skip]][+flags]`, into a [`SplitConfig`].  Flag letters
/// are `s` (sni), `h` (host), `e` (end), `m` (middle); unknown letters are
/// ignored, and unparsable `repeats`/`skip` parts are dropped.  Only an
/// unparsable offset is an error.
#[verifier::loop_isolation(false)]
pub fn parse_split_config(s: &str) -> (r: Result<SplitConfig, SplitParseError>)
    ensures
        r matches Ok(cfg) ==> spec_parse_split_config(s.spec_bytes()) == Some(cfg),
        r is Err <==> spec_parse_split_config(s.spec_bytes()) is None,
{
    let bytes = s.as_bytes();
    let n = bytes.len();

    // Everything after the first `+` is flag letters.
    let plus = find_byte_from(bytes, 0x2b, 0, n);
    let pe = match plus {
        Some(p) => p,
        None => n,
    };
    let mut flags = SplitFlags::default();
    if let Some(p) = plus {
        let mut i = p + 1;
        while i < n
            invariant
                p < i <= n,
                spec_collect_flags(
                    bytes@,
                    p + 1,
                    SplitFlags { sni: false, host: false, end: false, middle: false },
                ) == spec_collect_flags(bytes@, i as int, flags),
            decreases n - i,
        {
            let c = bytes[i];
            if c == 0x73 {
                flags = SplitFlags { sni: true, ..flags };
            } else if c == 0x68 {
                flags = SplitFlags { host: true, ..flags };
            } else if c == 0x65 {
                flags = SplitFlags { end: true, ..flags };
            } else if c == 0x6d {
                flags = SplitFlags { middle: true, ..flags };
            }
            i = i + 1;
        }
    }

    // The part before the flags splits on `:` into offset, repeats, skip.
    let c1 = find_byte_from(bytes, 0x3a, 0, pe);
    let offset_end = match c1 {
        Some(c) => c,
        None => pe,
    };
    let mut repeats: Option<usize> = None;
    let mut skip: Option<usize> = None;
    if let Some(c) = c1 {
        let c2 = find_byte_from(bytes, 0x3a, c + 1, pe);
        let r_end = match c2 {
            Some(v) => v,
            None => pe,
        };
        repeats = match parse_u64_digits(bytes, c + 1, r_end, usize::MAX as u64) {
            Some(v) => Some(v as usize),
            None => None,
        };
        if let Some(cc2) = c2 {
            let s_end = match find_byte_from(bytes, 0x3a, cc2 + 1, pe) {
                Some(v) => v,
                None => pe,
            };
            skip = match parse_u64_digits(bytes, cc2 + 1, s_end, usize::MAX as u64) {
                Some(v) => Some(v as usize),
                None => None,
            };
        }
    }

    // The offset itself: an optional `-`, then decimal digits.
    let offset: i64;
    if offset_end >= 1 && bytes[0] == 0x2d {
        proof {
            assert(bytes@.subrange(0, offset_end as int).subrange(
                1,
                offset_end as int,
            ) =~= bytes@.subrange(1, offset_end as int));
        }
        match parse_u64_digits(bytes, 1, offset_end, 0x8000000000000000u64) {
            Some(mag) => {
                if mag == 0x8000000000000000u64 {
                    offset = i64::MIN;
                } else {
                    offset = -(mag as i64);
                }
            },
            None => {
                return Err(SplitParseError::InvalidOffset);
            },
        }
    } else {
        match parse_u64_digits(bytes, 0, offset_end, i64::MAX as u64) {
            Some(v) => {
                offset = v as i64;
            },
            None => {
                return Err(SplitParseError::InvalidOffset);
            },
        }
    }

    Ok(SplitConfig { offset, flags, repeats, skip })
}

} // verus!
