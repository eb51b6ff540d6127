//! Stateless dissection of TLS ClientHello and HTTP request bytes.
//!
//! Every function here is a pure function of the buffer it is given; every
//! multi-byte length field read from the buffer is bounds-checked before it
//! is used, so truncated or adversarial input yields `None` (or an error for
//! [`split_tls_record`]) and never an out-of-bounds access.

use vstd::prelude::*;
use vstd::pervasive::VecAdditionalExecFns;
use vstd::string::StringSliceAdditionalSpecFns;

use crate::be16;

verus! {

/// What it means for a buffer to hold a TLS ClientHello record header:
/// at least five bytes, content type `0x16` (handshake), and a declared
/// version between TLS 1.0 (`0x0301`) and TLS 1.3 (`0x0304`).
pub open spec fn spec_is_tls_chello(b: Seq<u8>) -> bool {
    &&& b.len() >= 5
    &&& b[0] == 0x16
    &&& 0x0301 <= be16(b[1], b[2]) <= 0x0304
}

/// Check if buffer contains a TLS ClientHello.
pub fn is_tls_chello(buffer: &[u8]) -> (r: bool)
    ensures
        r == spec_is_tls_chello(buffer@),
{
    if buffer.len() < 5 {
        return false;
    }
    let version = crate::read_be16(buffer[1], buffer[2]);
    buffer[0] == 0x16 && version >= 0x0301 && version <= 0x0304
}

/// The nine four-byte method prefixes that mark a buffer as an HTTP request:
/// `GET `, `POST`, `PUT `, `HEAD`, `DELE`, `OPTI`, `CONN`, `TRAC`, `PATC`.
pub open spec fn spec_is_http_method(m0: u8, m1: u8, m2: u8, m3: u8) -> bool {
    ||| m0 == 0x47 && m1 == 0x45 && m2 == 0x54 && m3 == 0x20
    ||| m0 == 0x50 && m1 == 0x4f && m2 == 0x53 && m3 == 0x54
    ||| m0 == 0x50 && m1 == 0x55 && m2 == 0x54 && m3 == 0x20
    ||| m0 == 0x48 && m1 == 0x45 && m2 == 0x41 && m3 == 0x44
    ||| m0 == 0x44 && m1 == 0x45 && m2 == 0x4c && m3 == 0x45
    ||| m0 == 0x4f && m1 == 0x50 && m2 == 0x54 && m3 == 0x49
    ||| m0 == 0x43 && m1 == 0x4f && m2 == 0x4e && m3 == 0x4e
    ||| m0 == 0x54 && m1 == 0x52 && m2 == 0x41 && m3 == 0x43
    ||| m0 == 0x50 && m1 == 0x41 && m2 == 0x54 && m3 == 0x43
}

/// What it means for a buffer to look like an HTTP request: it starts with
/// one of the fixed four-byte method prefixes.
pub open spec fn spec_is_http(b: Seq<u8>) -> bool {
    b.len() >= 4 && spec_is_http_method(b[0], b[1], b[2], b[3])
}

/// Check if buffer contains an HTTP request.
pub fn is_http(buffer: &[u8]) -> (r: bool)
    ensures
        r == spec_is_http(buffer@),
{
    if buffer.len() < 4 {
        return false;
    }
    let (m0, m1, m2, m3) = (buffer[0], buffer[1], buffer[2], buffer[3]);
    (m0 == 0x47 && m1 == 0x45 && m2 == 0x54 && m3 == 0x20)
        || (m0 == 0x50 && m1 == 0x4f && m2 == 0x53 && m3 == 0x54)
        || (m0 == 0x50 && m1 == 0x55 && m2 == 0x54 && m3 == 0x20)
        || (m0 == 0x48 && m1 == 0x45 && m2 == 0x41 && m3 == 0x44)
        || (m0 == 0x44 && m1 == 0x45 && m2 == 0x4c && m3 == 0x45)
        || (m0 == 0x4f && m1 == 0x50 && m2 == 0x54 && m3 == 0x49)
        || (m0 == 0x43 && m1 == 0x4f && m2 == 0x4e && m3 == 0x4e)
        || (m0 == 0x54 && m1 == 0x52 && m2 == 0x41 && m3 == 0x43)
        || (m0 == 0x50 && m1 == 0x41 && m2 == 0x54 && m3 == 0x43)
}

/// The six bytes of the literal `Host: ` header prefix.
pub open spec fn host_header_prefix() -> Seq<u8> {
    seq![0x48, 0x6f, 0x73, 0x74, 0x3a, 0x20]
}

/// The `Host: ` prefix stands at position `i` of the buffer.
pub open spec fn host_prefix_at(b: Seq<u8>, i: int) -> bool {
    &&& 0 <= i
    &&& i + 6 <= b.len()
    &&& b.subrange(i, i + 6) == host_header_prefix()
}

/// Offset just past the first `Host: ` occurrence at or after position `i`,
/// or `None` when there is none.
pub open spec fn spec_find_host_from(b: Seq<u8>, i: int) -> Option<int>
    decreases b.len() - i,
{
    if i < 0 || i + 6 > b.len() {
        None
    } else if host_prefix_at(b, i) {
        Some(i + 6)
    } else {
        spec_find_host_from(b, i + 1)
    }
}

/// Offset immediately following the first case-exact `Host: ` substring.
pub open spec fn spec_find_http_host_offset(b: Seq<u8>) -> Option<int> {
    spec_find_host_from(b, 0)
}

/// Find the offset just past the first case-exact `Host: ` substring,
/// or `None` when the buffer holds no such substring.
pub fn find_http_host_offset(buffer: &[u8]) -> (r: Option<usize>)
    ensures
        r matches Some(v) ==> spec_find_http_host_offset(buffer@) == Some(v as int),
        r is None ==> spec_find_http_host_offset(buffer@) is None,
{
    let len = buffer.len();
    if len < 6 {
        return None;
    }
    let mut i: usize = 0;
    while i <= len - 6
        invariant
            len == buffer@.len(),
            6 <= len,
            0 <= i <= len - 5,
            spec_find_host_from(buffer@, 0) == spec_find_host_from(buffer@, i as int),
        decreases len - i,
    {
        if buffer[i] == 0x48 && buffer[i + 1] == 0x6f && buffer[i + 2] == 0x73
            && buffer[i + 3] == 0x74 && buffer[i + 4] == 0x3a && buffer[i + 5] == 0x20 {
            proof {
                assert(buffer@.subrange(i as int, i + 6) =~= host_header_prefix());
            }
            return Some(i + 6);
        }
        proof {
            assert(buffer@.subrange(i as int, i + 6) != host_header_prefix()) by {
                if buffer@.subrange(i as int, i + 6) == host_header_prefix() {
                    assert(buffer@.subrange(i as int, i + 6)[0] == 0x48);
                }
            }
        }
        i = i + 1;
    }
    None
}

/// Scan of the ClientHello extensions block, starting at `off`.  Each
/// extension is a two-byte type, a two-byte length and a payload; the scan
/// stops at `ext_end` (the declared end of the block) or four bytes before
/// the end of the buffer, whichever comes first.  On the Server Name
/// Indication type (`0x0000`) with name type `0x00` (hostname), the result is
/// the offset of the first hostname byte; on any truncation, a non-hostname
/// name type, or exhaustion of the block, the result is `None`.
pub open spec fn spec_sni_ext_scan(b: Seq<u8>, off: int, ext_end: int) -> Option<int>
    decreases b.len() - off,
{
    if 0 <= off && off < ext_end && off + 4 < b.len() {
        let ext_type = be16(b[off], b[off + 1]);
        let ext_len = be16(b[off + 2], b[off + 3]);
        if ext_type == 0 {
            if b.len() < off + 7 {
                None
            } else if b[off + 6] == 0 {
                if b.len() >= off + 9 {
                    Some(off + 9)
                } else {
                    None
                }
            } else {
                None
            }
        } else {
            let next = off + 4 + ext_len;
            spec_sni_ext_scan(b, if next > b.len() { b.len() as int } else { next }, ext_end)
        }
    } else {
        None
    }
}

/// The byte offset of the first SNI hostname byte in a TLS ClientHello, or
/// `None`.  The walk skips, in order: the 5-byte record header, the 4-byte
/// handshake header, the 2-byte client version, the 32-byte random, the
/// session id (1-byte length prefix), the cipher-suite list (2-byte length
/// prefix) and the compression-method list (1-byte length prefix); the
/// extensions block (2-byte total length) is then scanned by
/// [`spec_sni_ext_scan`].  Every length field is checked against the buffer
/// length before it is applied.
pub open spec fn spec_find_sni_offset(b: Seq<u8>) -> Option<int> {
    if !spec_is_tls_chello(b) || b.len() < 43 {
        None
    } else {
        let o_sid: int = 43;
        if b.len() < o_sid + 1 {
            None
        } else {
            let o_cs = o_sid + 1 + b[o_sid];
            if b.len() < o_cs + 2 {
                None
            } else {
                let o_comp = o_cs + 2 + be16(b[o_cs], b[o_cs + 1]);
                if b.len() < o_comp + 1 {
                    None
                } else {
                    let o_ext = o_comp + 1 + b[o_comp];
                    if b.len() < o_ext + 2 {
                        None
                    } else {
                        let ext_total = be16(b[o_ext], b[o_ext + 1]);
                        spec_sni_ext_scan(b, o_ext + 2, o_ext + 2 + ext_total)
                    }
                }
            }
        }
    }
}

/// Find the offset of the first SNI hostname byte in a TLS ClientHello.
/// Returns `None` — never an out-of-bounds access — on non-ClientHello
/// input, a buffer truncated at any parse step, absence of an SNI extension,
/// or a non-hostname name type.
pub fn find_sni_offset(buffer: &[u8]) -> (r: Option<usize>)
    ensures
        r matches Some(v) ==> spec_find_sni_offset(buffer@) == Some(v as int),
        r is None ==> spec_find_sni_offset(buffer@) is None,
{
    if !is_tls_chello(buffer) || buffer.len() < 43 {
        return None;
    }
    let len = buffer.len();

    // Session id: 1-byte length prefix at offset 43.
    if len < 44 {
        return None;
    }
    let o_cs: usize = 44 + buffer[43] as usize;

    // Cipher suites: 2-byte length prefix.
    if len < 2 || o_cs > len - 2 {
        return None;
    }
    let cs_len = crate::read_be16(buffer[o_cs], buffer[o_cs + 1]) as usize;
    let o_comp: usize = o_cs + 2 + cs_len;

    // Compression methods: 1-byte length prefix.
    if o_comp > len - 1 {
        return None;
    }
    let o_ext: usize = o_comp + 1 + buffer[o_comp] as usize;

    // Extensions block: 2-byte total length.
    if o_ext > len - 2 {
        return None;
    }
    let ext_total = crate::read_be16(buffer[o_ext], buffer[o_ext + 1]) as usize;
    let scan_start: usize = o_ext + 2;
    let ghost ext_end: int = scan_start + ext_total;

    let mut off: usize = scan_start;
    loop
        invariant
            len == buffer@.len(),
            43 <= len,
            scan_start <= off,
            off <= len,
            ext_end == scan_start + ext_total,
            spec_find_sni_offset(buffer@) == spec_sni_ext_scan(buffer@, off as int, ext_end),
        decreases len - off,
    {
        // The loop runs while `off` is inside the extensions block and at
        // least four bytes before the end of the buffer.
        if !(off - scan_start < ext_total && off < len - 4) {
            return None;
        }
        let ext_type = crate::read_be16(buffer[off], buffer[off + 1]);
        let ext_len = crate::read_be16(buffer[off + 2], buffer[off + 3]) as usize;
        if ext_type == 0 {
            // Server Name Indication: 2-byte list length, 1-byte name type,
            // 2-byte hostname length, then the hostname itself.
            if len < 3 || off + 4 > len - 3 {
                return None;
            }
            if buffer[off + 6] == 0 {
                if len >= 5 && off + 4 <= len - 5 {
                    return Some(off + 9);
                }
            }
            return None;
        }
        let rem: usize = len - (off + 4);
        if ext_len >= rem {
            // The next extension would start at or past the end of the
            // buffer, where the scan always ends without a result.
            proof {
                let next: int = off + 4 + ext_len;
                let clamped: int = if next > len { len as int } else { next };
                assert(spec_sni_ext_scan(buffer@, clamped, ext_end) is None);
            }
            return None;
        }
        off = off + 4 + ext_len;
    }
}

/// Relies on `core::str::from_utf8`: it succeeds exactly on valid UTF-8
/// input, and the returned string slice is the decoding of those bytes and
/// is backed by them unchanged.
#[verifier::external_body]
pub(crate) fn utf8_to_str(bytes: &[u8]) -> (r: Option<&str>)
    ensures
        r is Some <==> vstd::utf8::valid_utf8(bytes@),
        r matches Some(s) ==> s@ == vstd::utf8::decode_utf8(bytes@) && s.spec_bytes() == bytes@,
{
    core::str::from_utf8(bytes).ok()
}

/// A token separator inside the request line: space or horizontal tab.
pub open spec fn is_token_sep(c: u8) -> bool {
    c == 0x20 || c == 0x09
}

/// A byte that ends the target token: a separator, carriage return or
/// line feed.
pub open spec fn is_token_end(c: u8) -> bool {
    is_token_sep(c) || c == 0x0d || c == 0x0a
}

/// First position at or after `i` that does not hold a space or tab.
pub open spec fn spec_skip_seps(b: Seq<u8>, i: int) -> int
    decreases b.len() - i,
{
    if 0 <= i < b.len() && is_token_sep(b[i]) {
        spec_skip_seps(b, i + 1)
    } else {
        i
    }
}

/// First position at or after `i` that ends the token (or the buffer end).
pub open spec fn spec_token_end(b: Seq<u8>, i: int) -> int
    decreases b.len() - i,
{
    if 0 <= i < b.len() && !is_token_end(b[i]) {
        spec_token_end(b, i + 1)
    } else {
        i
    }
}

/// Position of the first `:` in `[i, end)`, or `None`.
pub open spec fn spec_find_colon(b: Seq<u8>, i: int, end: int) -> Option<int>
    decreases end - i,
{
    if i < 0 || i >= end || i >= b.len() {
        None
    } else if b[i] == 0x3a {
        Some(i)
    } else {
        spec_find_colon(b, i + 1, end)
    }
}

/// Every byte is an ASCII decimal digit.
pub open spec fn all_digits(b: Seq<u8>) -> bool {
    forall|i: int| 0 <= i < b.len() ==> 0x30 <= #[trigger] b[i] <= 0x39
}

/// The decimal value a sequence of ASCII digit bytes denotes.
pub open spec fn dec_value(b: Seq<u8>) -> int
    decreases b.len(),
{
    if b.len() == 0 {
        0
    } else {
        dec_value(b.drop_last()) * 10 + (b.last() - 0x30)
    }
}

/// The eight bytes of the literal `CONNECT ` request-line prefix.
pub open spec fn connect_prefix() -> Seq<u8> {
    seq![0x43, 0x4f, 0x4e, 0x4e, 0x45, 0x43, 0x54, 0x20]
}

/// The byte-level structure of an HTTP CONNECT request: the buffer starts
/// with the literal `CONNECT `, and the token that follows (after any
/// further separators, up to the next separator or line end) holds a `:`;
/// the part after the first `:` must be a non-empty run of decimal digits
/// denoting a port of at most 65535.  The result is the host part (the token
/// bytes before the `:`) and the port.
pub open spec fn spec_connect_target(b: Seq<u8>) -> Option<(Seq<u8>, u16)> {
    if b.len() < 8 || b.subrange(0, 8) != connect_prefix() {
        None
    } else {
        let t0 = spec_skip_seps(b, 8);
        let t1 = spec_token_end(b, t0);
        match spec_find_colon(b, t0, t1) {
            Some(c) => {
                let port = b.subrange(c + 1, t1);
                if port.len() == 0 || !all_digits(port) || dec_value(port) > 0xffff {
                    None
                } else {
                    Some((b.subrange(t0, c), dec_value(port) as u16))
                }
            },
            None => None,
        }
    }
}

/// When [`parse_http_connect`] succeeds: the whole buffer is valid UTF-8,
/// the request line has the CONNECT structure, and the host bytes are
/// themselves valid UTF-8.
pub open spec fn spec_connect_ok(b: Seq<u8>) -> bool {
    &&& vstd::utf8::valid_utf8(b)
    &&& spec_connect_target(b) is Some
    &&& vstd::utf8::valid_utf8(spec_connect_target(b)->Some_0.0)
}

/// Parse an HTTP CONNECT request and extract its host and port.  The buffer
/// must decode as UTF-8 text and its first line must start with `CONNECT `;
/// the following token is split on the first `:` into host and numeric port.
/// Any decode, format or parse failure yields `None` — never a panic.
#[verifier::loop_isolation(false)]
pub fn parse_http_connect(buffer: &[u8]) -> (r: Option<(String, u16)>)
    ensures
        r is Some <==> spec_connect_ok(buffer@),
        r matches Some((h, p)) ==> spec_connect_target(buffer@) matches Some((hb, p2)) && p == p2
            && h@ == vstd::utf8::decode_utf8(hb),
{
    let len = buffer.len();
    if utf8_to_str(buffer).is_none() {
        return None;
    }
    if len < 8 {
        return None;
    }
    if !(buffer[0] == 0x43 && buffer[1] == 0x4f && buffer[2] == 0x4e && buffer[3] == 0x4e
        && buffer[4] == 0x45 && buffer[5] == 0x43 && buffer[6] == 0x54 && buffer[7] == 0x20) {
        proof {
            assert(buffer@.subrange(0, 8) != connect_prefix()) by {
                if buffer@.subrange(0, 8) == connect_prefix() {
                    assert(buffer@.subrange(0, 8)[0] == 0x43);
                }
            }
        }
        return None;
    }
    proof {
        assert(buffer@.subrange(0, 8) =~= connect_prefix());
    }

    // Skip separators after the method.
    let mut t0: usize = 8;
    while t0 < len && (buffer[t0] == 0x20 || buffer[t0] == 0x09)
        invariant
            len == buffer@.len(),
            8 <= t0 <= len,
            spec_skip_seps(buffer@, 8) == spec_skip_seps(buffer@, t0 as int),
        decreases len - t0,
    {
        t0 = t0 + 1;
    }

    // Find the end of the target token.
    let mut t1: usize = t0;
    while t1 < len && !(buffer[t1] == 0x20 || buffer[t1] == 0x09 || buffer[t1] == 0x0d
        || buffer[t1] == 0x0a)
        invariant
            len == buffer@.len(),
            t0 <= t1 <= len,
            spec_token_end(buffer@, t0 as int) == spec_token_end(buffer@, t1 as int),
        decreases len - t1,
    {
        t1 = t1 + 1;
    }

    proof {
        assert(spec_skip_seps(buffer@, t0 as int) == t0 as int);
        assert(spec_token_end(buffer@, t1 as int) == t1 as int);
    }

    // Find the first colon inside the token.
    let mut c: usize = t0;
    while c < t1 && buffer[c] != 0x3a
        invariant
            len == buffer@.len(),
            t0 <= c <= t1 <= len,
            spec_find_colon(buffer@, t0 as int, t1 as int) == spec_find_colon(
                buffer@,
                c as int,
                t1 as int,
            ),
        decreases t1 - c,
    {
        c = c + 1;
    }
    if c >= t1 {
        proof {
            assert(spec_find_colon(buffer@, c as int, t1 as int) is None);
        }
        return None;
    }
    proof {
        assert(spec_find_colon(buffer@, c as int, t1 as int) == Some(c as int));
    }

    // Parse the port digits after the colon, saturating above the largest
    // value a port can take so that overlong digit runs still read as
    // out of range.
    if c + 1 >= t1 {
        proof {
            assert(buffer@.subrange(c + 1, t1 as int).len() == 0);
            assert(spec_connect_target(buffer@) is None);
        }
        return None;
    }
    let mut val: u32 = 0;
    let mut j: usize = c + 1;
    while j < t1
        invariant
            len == buffer@.len(),
            c + 1 <= j <= t1 <= len,
            all_digits(buffer@.subrange(c + 1, j as int)),
            val <= 66000,
            dec_value(buffer@.subrange(c + 1, j as int)) <= 0xffff ==> val == dec_value(
                buffer@.subrange(c + 1, j as int),
            ),
            dec_value(buffer@.subrange(c + 1, j as int)) > 0xffff ==> val == 66000,
        decreases t1 - j,
    {
        let d = buffer[j];
        if d < 0x30 || d > 0x39 {
            proof {
                assert(buffer@.subrange(c + 1, t1 as int)[j - (c + 1)] == d);
            }
            return None;
        }
        proof {
            assert(buffer@.subrange(c + 1, j + 1).drop_last() =~= buffer@.subrange(
                c + 1,
                j as int,
            ));
            assert(buffer@.subrange(c + 1, j + 1).last() == d);
        }
        val = val * 10 + (d - 0x30) as u32;
        if val > 0xffff {
            val = 66000;
        }
        j = j + 1;
    }
    proof {
        assert(buffer@.subrange(c + 1, t1 as int).len() > 0);
    }
    if val > 0xffff {
        return None;
    }

    // Decode the host bytes; the token is delimited by ASCII, so inside a
    // valid UTF-8 buffer this cannot fail, but the check keeps the function
    // total on every input.
    let host_bytes = &buffer[t0..c];
    match utf8_to_str(host_bytes) {
        Some(s) => Some((s.to_owned(), val as u16)),
        None => None,
    }
}

/// Error of [`split_tls_record`]: the buffer does not hold five bytes of
/// record beyond the requested position.
#[derive(Clone, Copy, Debug, PartialEq, Eq, Structural)]
pub enum RecordSplitError {
    InsufficientRoom,
}

/// The payload length a TLS record header declares (bytes 3 and 4).
pub open spec fn spec_record_len(b: Seq<u8>) -> int {
    be16(b[3], b[4])
}

/// The buffer after one TLS record is split in place at `pos`: the first
/// record's length becomes `pos - 5`, and a synthesized 5-byte header (same
/// content type and version, length = original length − (pos − 5)) is
/// inserted immediately before the remainder.
pub open spec fn spec_split_record(b: Seq<u8>, pos: int) -> Seq<u8> {
    let first_len = pos - 5;
    let second_len = spec_record_len(b) - first_len;
    let updated = b.update(3, (first_len / 256) as u8).update(4, (first_len % 256) as u8);
    updated.subrange(0, pos)
        + seq![b[0], b[1], b[2], (second_len / 256) as u8, (second_len % 256) as u8]
        + updated.subrange(pos, b.len() as int)
}

/// Split one TLS record in place at an absolute buffer position.  Fails,
/// leaving the buffer unchanged, when fewer than five bytes of record remain
/// after `position`.
pub fn split_tls_record(buffer: &mut Vec<u8>, position: usize) -> (r: Result<
    (),
    RecordSplitError,
>)
    requires
        old(buffer)@.len() >= position + 5 ==> 5 <= position && position - 5 <= spec_record_len(
            old(buffer)@,
        ),
    ensures
        r is Err <==> old(buffer)@.len() < position + 5,
        r is Err ==> final(buffer)@ == old(buffer)@,
        r is Ok ==> final(buffer)@ == spec_split_record(old(buffer)@, position as int),
{
    if buffer.len() < 5 || position > buffer.len() - 5 {
        return Err(RecordSplitError::InsufficientRoom);
    }
    let original_len = crate::read_be16(buffer[3], buffer[4]) as usize;
    let first_len = position - 5;
    let second_len = original_len - first_len;

    let b0 = buffer[0];
    let b1 = buffer[1];
    let b2 = buffer[2];

    buffer.set(3, (first_len / 256) as u8);
    buffer.set(4, (first_len % 256) as u8);

    // Insert the synthesized header for the second part, last byte first.
    buffer.insert(position, (second_len % 256) as u8);
    buffer.insert(position, (second_len / 256) as u8);
    buffer.insert(position, b2);
    buffer.insert(position, b1);
    buffer.insert(position, b0);

    proof {
        assert(buffer@ =~= spec_split_record(old(buffer)@, position as int));
    }
    Ok(())
}

} // verus!
