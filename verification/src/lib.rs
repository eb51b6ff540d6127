//! Core of a forward proxy (SOCKS5 and HTTP CONNECT) that mutates the byte
//! stream it relays toward the target to defeat passive deep-packet
//! inspection: splitting, reordering, or injecting decoy data around
//! protocol-revealing byte ranges (TLS SNI, HTTP Host header).
//!
//! - [`packets`]: stateless binary dissection of TLS ClientHello and HTTP
//!   request bytes, bounds-checked against untrusted input.
//! - [`desync`]: the transformation engine, a pure function from one buffer
//!   and a policy to an ordered list of write instructions.
//! - [`config`]: the desync policy and the position-specification parser.
//! - [`proxy`]: the handshake state machines and forwarding decisions; an
//!   unverified driver performs the reads, writes and dials they call for.

use vstd::prelude::*;

pub mod config;
pub mod desync;
pub mod packets;
pub mod proxy;

verus! {

/// Big-endian interpretation of two bytes, as TLS length fields use it.
pub open spec fn be16(hi: u8, lo: u8) -> int {
    hi * 256 + lo
}

/// Reads a 16-bit big-endian value from two bytes.
pub fn read_be16(hi: u8, lo: u8) -> (r: u16)
    ensures
        r == be16(hi, lo),
{
    (hi as u16) * 256 + (lo as u16)
}

} // verus!
