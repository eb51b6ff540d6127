//! Handshake and forwarding decisions of the proxy.
//!
//! The connection pipeline alternates network reads with decisions.  Every
//! decision lives here as a pure function from the bytes read to the next
//! state and action; the surrounding driver only performs the reads, writes
//! and dials the decisions call for.  A malformed handshake is rejected
//! with an explicit error and never corrupts the stream.

use vstd::prelude::*;
use vstd::slice::slice_to_vec;

use crate::be16;
use crate::packets::utf8_to_str;

verus! {

/// The SOCKS5 protocol version byte.
pub const SOCKS5_VERSION: u8 = 0x05;

/// The SOCKS5 "no authentication required" method value.
pub const SOCKS5_AUTH_NONE: u8 = 0x00;

/// The SOCKS5 CONNECT command value.
pub const SOCKS5_CMD_CONNECT: u8 = 0x01;

/// Cap on the accumulated size of an HTTP CONNECT request.
pub const HTTP_MAX_REQUEST: usize = 8192;

/// Size of one forwarding read.
pub const FORWARD_BUFFER_SIZE: usize = 8192;

/// What the first byte of a connection reveals: `0x05` opens the SOCKS5
/// path, an ASCII `C` opens the HTTP CONNECT path (the byte is kept as the
/// first character of the request line), anything else is a fatal protocol
/// violation.
#[derive(Clone, Copy, Debug, PartialEq, Eq, Structural)]
pub enum SniffedProtocol {
    Socks5,
    HttpConnect,
    Violation,
}

/// Sniff the protocol from the first byte read off a fresh connection.
pub fn sniff_protocol(first: u8) -> (r: SniffedProtocol)
    ensures
        r == SniffedProtocol::Socks5 <==> first == SOCKS5_VERSION,
        r == SniffedProtocol::HttpConnect <==> first == 0x43,
        r == SniffedProtocol::Violation <==> (first != SOCKS5_VERSION && first != 0x43),
{
    if first == SOCKS5_VERSION {
        SniffedProtocol::Socks5
    } else if first == 0x43 {
        SniffedProtocol::HttpConnect
    } else {
        SniffedProtocol::Violation
    }
}

/// A resolved or still-symbolic target address, as the SOCKS5 request or
/// the CONNECT line names it.  The driver resolves a domain by name lookup
/// and dials the result.
#[derive(Clone, Debug)]
pub enum TargetAddr {
    Ipv4 { octets: Vec<u8>, port: u16 },
    Domain { name: String, port: u16 },
    Ipv6 { octets: Vec<u8>, port: u16 },
}

/// Ghost image of a target address.
pub enum TargetAddrSpec {
    Ipv4 { octets: Seq<u8>, port: u16 },
    Domain { name: Seq<char>, port: u16 },
    Ipv6 { octets: Seq<u8>, port: u16 },
}

impl View for TargetAddr {
    type V = TargetAddrSpec;

    open spec fn view(&self) -> TargetAddrSpec {
        match self {
            TargetAddr::Ipv4 { octets, port } => TargetAddrSpec::Ipv4 {
                octets: octets@,
                port: *port,
            },
            TargetAddr::Domain { name, port } => TargetAddrSpec::Domain {
                name: name@,
                port: *port,
            },
            TargetAddr::Ipv6 { octets, port } => TargetAddrSpec::Ipv6 {
                octets: octets@,
                port: *port,
            },
        }
    }
}

/// Why a SOCKS5 handshake is torn down.
#[derive(Clone, Copy, Debug, PartialEq, Eq, Structural)]
pub enum SocksError {
    /// The method list offers no "no authentication" entry.
    NoAcceptableAuth,
    /// The request header carries a wrong version or a non-CONNECT command.
    InvalidRequest,
    /// The request names an address type other than IPv4, domain or IPv6.
    UnsupportedAddressType,
    /// The domain bytes are not valid UTF-8.
    InvalidDomainName,
}

/// The states of the SOCKS5 handshake, in the order they are passed
/// through; there are no backward transitions.  Each state expects the
/// fixed number of bytes [`spec_socks5_expected_len`] gives.
#[derive(Clone, Copy, Debug, PartialEq, Eq, Structural)]
pub enum SocksState {
    /// Expect the 1-byte method count (the version byte is already consumed
    /// by the protocol sniff).
    MethodCount,
    /// Expect `count` method bytes.
    Methods { count: u8 },
    /// Expect the 4-byte request header: version, command, reserved,
    /// address type.  Entered after the auth reply is sent.
    RequestHeader,
    /// Expect 4 address bytes and a 2-byte port.
    Ipv4Address,
    /// Expect the 1-byte domain length.
    DomainLength,
    /// Expect `len` domain bytes and a 2-byte port.
    DomainAddress { len: u8 },
    /// Expect 16 address bytes and a 2-byte port.
    Ipv6Address,
}

/// How many bytes the driver must read before the next step in a state.
pub open spec fn spec_socks5_expected_len(s: SocksState) -> int {
    match s {
        SocksState::MethodCount => 1,
        SocksState::Methods { count } => count as int,
        SocksState::RequestHeader => 4,
        SocksState::Ipv4Address => 6,
        SocksState::DomainLength => 1,
        SocksState::DomainAddress { len } => len + 2,
        SocksState::Ipv6Address => 18,
    }
}

/// How many bytes the driver must read before the next step in a state.
pub fn socks5_expected_len(s: &SocksState) -> (r: usize)
    ensures
        r == spec_socks5_expected_len(*s),
{
    match s {
        SocksState::MethodCount => 1,
        SocksState::Methods { count } => *count as usize,
        SocksState::RequestHeader => 4,
        SocksState::Ipv4Address => 6,
        SocksState::DomainLength => 1,
        SocksState::DomainAddress { len } => *len as usize + 2,
        SocksState::Ipv6Address => 18,
    }
}

/// What the driver does after one step of the handshake.
#[derive(Clone, Debug)]
pub enum SocksAction {
    /// Read the next state's expected bytes and step again.
    Continue { state: SocksState },
    /// Send the 2-byte auth reply, then read the next state's expected
    /// bytes and step again.
    SendAuthReply { state: SocksState },
    /// Resolve and dial the target; on success send the success reply and
    /// hand the connection to the forwarding pipeline.
    Dial { target: TargetAddr },
    /// Tear the connection down.
    Fail { error: SocksError },
}

/// Ghost image of a handshake action.
pub enum SocksActionSpec {
    Continue { state: SocksState },
    SendAuthReply { state: SocksState },
    Dial { target: TargetAddrSpec },
    Fail { error: SocksError },
}

impl View for SocksAction {
    type V = SocksActionSpec;

    open spec fn view(&self) -> SocksActionSpec {
        match self {
            SocksAction::Continue { state } => SocksActionSpec::Continue { state: *state },
            SocksAction::SendAuthReply { state } => SocksActionSpec::SendAuthReply {
                state: *state,
            },
            SocksAction::Dial { target } => SocksActionSpec::Dial { target: target@ },
            SocksAction::Fail { error } => SocksActionSpec::Fail { error: *error },
        }
    }
}

/// One step of the SOCKS5 handshake on the bytes just read: method
/// negotiation must offer no-auth; the request must be version 5 with the
/// CONNECT command; the address is IPv4, domain (resolved by the driver) or
/// IPv6; everything else fails with the matching error.
pub open spec fn spec_socks5_step(state: SocksState, input: Seq<u8>) -> SocksActionSpec {
    match state {
        SocksState::MethodCount => SocksActionSpec::Continue {
            state: SocksState::Methods { count: input[0] },
        },
        SocksState::Methods { count } => if input.contains(SOCKS5_AUTH_NONE) {
            SocksActionSpec::SendAuthReply { state: SocksState::RequestHeader }
        } else {
            SocksActionSpec::Fail { error: SocksError::NoAcceptableAuth }
        },
        SocksState::RequestHeader => if input[0] != SOCKS5_VERSION || input[1]
            != SOCKS5_CMD_CONNECT {
            SocksActionSpec::Fail { error: SocksError::InvalidRequest }
        } else if input[3] == 0x01 {
            SocksActionSpec::Continue { state: SocksState::Ipv4Address }
        } else if input[3] == 0x03 {
            SocksActionSpec::Continue { state: SocksState::DomainLength }
        } else if input[3] == 0x04 {
            SocksActionSpec::Continue { state: SocksState::Ipv6Address }
        } else {
            SocksActionSpec::Fail { error: SocksError::UnsupportedAddressType }
        },
        SocksState::Ipv4Address => SocksActionSpec::Dial {
            target: TargetAddrSpec::Ipv4 {
                octets: input.subrange(0, 4),
                port: be16(input[4], input[5]) as u16,
            },
        },
        SocksState::DomainLength => SocksActionSpec::Continue {
            state: SocksState::DomainAddress { len: input[0] },
        },
        SocksState::DomainAddress { len } => {
            let name_bytes = input.subrange(0, len as int);
            if vstd::utf8::valid_utf8(name_bytes) {
                SocksActionSpec::Dial {
                    target: TargetAddrSpec::Domain {
                        name: vstd::utf8::decode_utf8(name_bytes),
                        port: be16(input[len as int], input[len + 1]) as u16,
                    },
                }
            } else {
                SocksActionSpec::Fail { error: SocksError::InvalidDomainName }
            }
        },
        SocksState::Ipv6Address => SocksActionSpec::Dial {
            target: TargetAddrSpec::Ipv6 {
                octets: input.subrange(0, 16),
                port: be16(input[16], input[17]) as u16,
            },
        },
    }
}

/// Run one step of the SOCKS5 handshake on the bytes just read.
#[verifier::loop_isolation(false)]
pub fn socks5_step(state: &SocksState, input: &[u8]) -> (r: SocksAction)
    requires
        input@.len() == spec_socks5_expected_len(*state),
    ensures
        r@ == spec_socks5_step(*state, input@),
{
    match state {
        SocksState::MethodCount => SocksAction::Continue {
            state: SocksState::Methods { count: input[0] },
        },
        SocksState::Methods { count: _ } => {
            let mut i: usize = 0;
            let n = input.len();
            while i < n
                invariant
                    0 <= i <= n,
                    n == input@.len(),
                    forall|j: int| 0 <= j < i ==> input@[j] != SOCKS5_AUTH_NONE,
                decreases n - i,
            {
                if input[i] == SOCKS5_AUTH_NONE {
                    return SocksAction::SendAuthReply { state: SocksState::RequestHeader };
                }
                i = i + 1;
            }
            proof {
                assert(!input@.contains(SOCKS5_AUTH_NONE));
            }
            SocksAction::Fail { error: SocksError::NoAcceptableAuth }
        },
        SocksState::RequestHeader => {
            if input[0] != SOCKS5_VERSION || input[1] != SOCKS5_CMD_CONNECT {
                SocksAction::Fail { error: SocksError::InvalidRequest }
            } else if input[3] == 0x01 {
                SocksAction::Continue { state: SocksState::Ipv4Address }
            } else if input[3] == 0x03 {
                SocksAction::Continue { state: SocksState::DomainLength }
            } else if input[3] == 0x04 {
                SocksAction::Continue { state: SocksState::Ipv6Address }
            } else {
                SocksAction::Fail { error: SocksError::UnsupportedAddressType }
            }
        },
        SocksState::Ipv4Address => {
            let octets = slice_to_vec(&input[0..4]);
            let port = crate::read_be16(input[4], input[5]);
            SocksAction::Dial { target: TargetAddr::Ipv4 { octets, port } }
        },
        SocksState::DomainLength => SocksAction::Continue {
            state: SocksState::DomainAddress { len: input[0] },
        },
        SocksState::DomainAddress { len } => {
            let l = *len as usize;
            let name_bytes = &input[0..l];
            let port = crate::read_be16(input[l], input[l + 1]);
            match utf8_to_str(name_bytes) {
                Some(s) => SocksAction::Dial {
                    target: TargetAddr::Domain { name: s.to_owned(), port },
                },
                None => SocksAction::Fail { error: SocksError::InvalidDomainName },
            }
        },
        SocksState::Ipv6Address => {
            let octets = slice_to_vec(&input[0..16]);
            let port = crate::read_be16(input[16], input[17]);
            SocksAction::Dial { target: TargetAddr::Ipv6 { octets, port } }
        },
    }
}

/// The 2-byte reply accepting the no-auth method: version 5, method 0.
pub fn socks5_auth_reply() -> (r: Vec<u8>)
    ensures
        r@ == seq![SOCKS5_VERSION, SOCKS5_AUTH_NONE],
{
    let mut v: Vec<u8> = Vec::new();
    v.push(SOCKS5_VERSION);
    v.push(SOCKS5_AUTH_NONE);
    proof {
        assert(v@ =~= seq![SOCKS5_VERSION, SOCKS5_AUTH_NONE]);
    }
    v
}

/// The fixed 10-byte success reply: version 5, success, reserved, IPv4,
/// and a zero-filled bound address and port.
pub fn socks5_success_reply() -> (r: Vec<u8>)
    ensures
        r@ == seq![0x05u8, 0x00u8, 0x00u8, 0x01u8, 0u8, 0u8, 0u8, 0u8, 0u8, 0u8],
{
    let mut v: Vec<u8> = Vec::new();
    v.push(0x05);
    v.push(0x00);
    v.push(0x00);
    v.push(0x01);
    v.push(0);
    v.push(0);
    v.push(0);
    v.push(0);
    v.push(0);
    v.push(0);
    proof {
        assert(v@ =~= seq![0x05u8, 0x00u8, 0x00u8, 0x01u8, 0u8, 0u8, 0u8, 0u8, 0u8, 0u8]);
    }
    v
}

/// The accumulated buffer ends in CRLF: the request line is complete.
pub open spec fn spec_request_line_done(b: Seq<u8>) -> bool {
    b.len() >= 2 && b[b.len() - 2] == 0x0d && b[b.len() - 1] == 0x0a
}

/// The accumulated buffer ends in CRLFCRLF: the headers are complete.
pub open spec fn spec_headers_done(b: Seq<u8>) -> bool {
    &&& b.len() >= 4
    &&& b[b.len() - 4] == 0x0d
    &&& b[b.len() - 3] == 0x0a
    &&& b[b.len() - 2] == 0x0d
    &&& b[b.len() - 1] == 0x0a
}

/// Where the HTTP CONNECT accumulation stands.
#[derive(Clone, Copy, Debug, PartialEq, Eq, Structural)]
pub enum HttpAccumState {
    /// Still inside the request line.
    RequestLine,
    /// Past the request line, inside the headers.
    Headers,
}

/// What the driver does after appending one byte to the request buffer.
#[derive(Clone, Copy, Debug, PartialEq, Eq, Structural)]
pub enum HttpAccumAction {
    /// Read one more byte in the given state.
    NeedMore { state: HttpAccumState },
    /// The headers are complete: parse the request and connect.
    Done,
    /// The accumulated request exceeds the size cap: tear down.
    TooLong,
}

/// The accumulation decision after one more byte: completion is checked
/// before the size cap, so a request finishing exactly at the cap still
/// goes through.
pub open spec fn spec_http_accum_step(state: HttpAccumState, b: Seq<u8>) -> HttpAccumAction {
    match state {
        HttpAccumState::RequestLine => if spec_request_line_done(b) {
            HttpAccumAction::NeedMore { state: HttpAccumState::Headers }
        } else if b.len() > HTTP_MAX_REQUEST {
            HttpAccumAction::TooLong
        } else {
            HttpAccumAction::NeedMore { state: HttpAccumState::RequestLine }
        },
        HttpAccumState::Headers => if spec_headers_done(b) {
            HttpAccumAction::Done
        } else if b.len() > HTTP_MAX_REQUEST {
            HttpAccumAction::TooLong
        } else {
            HttpAccumAction::NeedMore { state: HttpAccumState::Headers }
        },
    }
}

/// Decide how the HTTP CONNECT accumulation goes on after one more byte.
pub fn http_accum_step(state: &HttpAccumState, buf: &[u8]) -> (r: HttpAccumAction)
    ensures
        r == spec_http_accum_step(*state, buf@),
{
    let n = buf.len();
    match state {
        HttpAccumState::RequestLine => {
            if n >= 2 && buf[n - 2] == 0x0d && buf[n - 1] == 0x0a {
                HttpAccumAction::NeedMore { state: HttpAccumState::Headers }
            } else if n > HTTP_MAX_REQUEST {
                HttpAccumAction::TooLong
            } else {
                HttpAccumAction::NeedMore { state: HttpAccumState::RequestLine }
            }
        },
        HttpAccumState::Headers => {
            if n >= 4 && buf[n - 4] == 0x0d && buf[n - 3] == 0x0a && buf[n - 2] == 0x0d && buf[n
                - 1] == 0x0a {
                HttpAccumAction::Done
            } else if n > HTTP_MAX_REQUEST {
                HttpAccumAction::TooLong
            } else {
                HttpAccumAction::NeedMore { state: HttpAccumState::Headers }
            }
        },
    }
}

/// The fixed HTTP CONNECT success response,
/// `HTTP/1.1 200 Connection Established` followed by an empty line.
pub open spec fn spec_http_connect_response() -> Seq<u8> {
    seq![
        0x48u8, 0x54, 0x54, 0x50, 0x2f, 0x31, 0x2e, 0x31, 0x20, 0x32, 0x30, 0x30, 0x20, 0x43,
        0x6f, 0x6e, 0x6e, 0x65, 0x63, 0x74, 0x69, 0x6f, 0x6e, 0x20, 0x45, 0x73, 0x74, 0x61, 0x62,
        0x6c, 0x69, 0x73, 0x68, 0x65, 0x64, 0x0d, 0x0a, 0x0d, 0x0a,
    ]
}

/// The fixed HTTP CONNECT success response bytes.
pub fn http_connect_response() -> (r: Vec<u8>)
    ensures
        r@ == spec_http_connect_response(),
{
    let s = "HTTP/1.1 200 Connection Established\r\n\r\n";
    let v = s.as_bytes_vec();
    proof {
        reveal_strlit("HTTP/1.1 200 Connection Established\r\n\r\n");
        broadcast use vstd::string::is_ascii_spec_bytes;
        assert(vstd::string::is_ascii(s));
        assert(v@ =~= spec_http_connect_response());
    }
    v
}

/// Classified outcome of one read on a forwarding direction, as the driver
/// reports it.
#[derive(Clone, Copy, Debug, PartialEq, Eq, Structural)]
pub enum ReadEvent {
    /// End of stream.
    Eof,
    /// `count` bytes were read.
    Data { count: usize },
    /// The read failed with a connection reset.
    Reset,
    /// The read failed with any other error.
    Failed,
}

/// What one forwarding direction does next.
#[derive(Clone, Copy, Debug, PartialEq, Eq, Structural)]
pub enum ForwardStep {
    /// Stop this direction cleanly; the other direction is unaffected.
    Stop,
    /// Pass the `count` bytes just read through the engine (client to
    /// target) or verbatim (target to client), then read again.
    Forward { count: usize },
    /// Abort this direction with an error; the other direction is
    /// unaffected.
    Abort,
}

/// Decide how a forwarding direction goes on after one read: end of stream
/// and connection reset stop it cleanly, data is forwarded, any other
/// failure aborts it.
pub fn forward_step(ev: &ReadEvent) -> (r: ForwardStep)
    ensures
        r == (match *ev {
            ReadEvent::Eof => ForwardStep::Stop,
            ReadEvent::Data { count } => if count == 0 {
                ForwardStep::Stop
            } else {
                ForwardStep::Forward { count }
            },
            ReadEvent::Reset => ForwardStep::Stop,
            ReadEvent::Failed => ForwardStep::Abort,
        }),
{
    match ev {
        ReadEvent::Eof => ForwardStep::Stop,
        ReadEvent::Data { count } => {
            if *count == 0 {
                ForwardStep::Stop
            } else {
                ForwardStep::Forward { count: *count }
            }
        },
        ReadEvent::Reset => ForwardStep::Stop,
        ReadEvent::Failed => ForwardStep::Abort,
    }
}

} // verus!
