//! Tests of the handshake state machines and forwarding decisions.

use stpro::config::DesyncConfig;
use stpro::desync::{Delivery, DesyncEngine};
use stpro::proxy::{
    forward_step, http_accum_step, http_connect_response, sniff_protocol, socks5_auth_reply,
    socks5_expected_len, socks5_step, socks5_success_reply, ForwardStep, HttpAccumAction,
    HttpAccumState, ReadEvent, SniffedProtocol, SocksAction, SocksError, SocksState, TargetAddr,
};

#[test]
fn protocol_sniff() {
    assert_eq!(sniff_protocol(0x05), SniffedProtocol::Socks5);
    assert_eq!(sniff_protocol(b'C'), SniffedProtocol::HttpConnect);
    assert_eq!(sniff_protocol(0x04), SniffedProtocol::Violation);
    assert_eq!(sniff_protocol(b'G'), SniffedProtocol::Violation);
}

#[test]
fn method_list_with_no_auth_is_accepted() {
    let action = socks5_step(&SocksState::Methods { count: 3 }, &[0x01, 0x00, 0x02]);
    assert!(matches!(
        action,
        SocksAction::SendAuthReply { state: SocksState::RequestHeader }
    ));
}

#[test]
fn method_list_without_no_auth_is_rejected() {
    let action = socks5_step(&SocksState::Methods { count: 2 }, &[0x01, 0x02]);
    assert!(matches!(
        action,
        SocksAction::Fail { error: SocksError::NoAcceptableAuth }
    ));
}

#[test]
fn empty_method_list_is_rejected() {
    let action = socks5_step(&SocksState::Methods { count: 0 }, &[]);
    assert!(matches!(action, SocksAction::Fail { error: SocksError::NoAcceptableAuth }));
}

#[test]
fn request_header_validation() {
    let ok = socks5_step(&SocksState::RequestHeader, &[0x05, 0x01, 0x00, 0x01]);
    assert!(matches!(ok, SocksAction::Continue { state: SocksState::Ipv4Address }));

    let bad_version = socks5_step(&SocksState::RequestHeader, &[0x04, 0x01, 0x00, 0x01]);
    assert!(matches!(bad_version, SocksAction::Fail { error: SocksError::InvalidRequest }));

    let bad_command = socks5_step(&SocksState::RequestHeader, &[0x05, 0x02, 0x00, 0x01]);
    assert!(matches!(bad_command, SocksAction::Fail { error: SocksError::InvalidRequest }));

    let domain = socks5_step(&SocksState::RequestHeader, &[0x05, 0x01, 0x00, 0x03]);
    assert!(matches!(domain, SocksAction::Continue { state: SocksState::DomainLength }));

    let ipv6 = socks5_step(&SocksState::RequestHeader, &[0x05, 0x01, 0x00, 0x04]);
    assert!(matches!(ipv6, SocksAction::Continue { state: SocksState::Ipv6Address }));

    let bad_atyp = socks5_step(&SocksState::RequestHeader, &[0x05, 0x01, 0x00, 0x05]);
    assert!(matches!(
        bad_atyp,
        SocksAction::Fail { error: SocksError::UnsupportedAddressType }
    ));
}

#[test]
fn domain_address_parsing() {
    let step = socks5_step(&SocksState::DomainLength, &[11]);
    assert!(matches!(step, SocksAction::Continue { state: SocksState::DomainAddress { len: 11 } }));

    let mut input = b"example.com".to_vec();
    input.extend_from_slice(&[0x01, 0xbb]);
    let action = socks5_step(&SocksState::DomainAddress { len: 11 }, &input);
    match action {
        SocksAction::Dial { target: TargetAddr::Domain { name, port } } => {
            assert_eq!(name, "example.com");
            assert_eq!(port, 443);
        }
        other => panic!("unexpected action: {:?}", other),
    }
}

#[test]
fn domain_with_invalid_utf8_is_rejected() {
    let input = [0xff, 0xfe, 0x00, 0x50];
    let action = socks5_step(&SocksState::DomainAddress { len: 2 }, &input);
    assert!(matches!(action, SocksAction::Fail { error: SocksError::InvalidDomainName }));
}

#[test]
fn ipv6_address_parsing() {
    let mut input = vec![0u8; 16];
    input[15] = 1;
    input.extend_from_slice(&[0x00, 0x50]);
    let action = socks5_step(&SocksState::Ipv6Address, &input);
    match action {
        SocksAction::Dial { target: TargetAddr::Ipv6 { octets, port } } => {
            assert_eq!(octets.len(), 16);
            assert_eq!(octets[15], 1);
            assert_eq!(port, 80);
        }
        other => panic!("unexpected action: {:?}", other),
    }
}

#[test]
fn expected_lengths() {
    assert_eq!(socks5_expected_len(&SocksState::MethodCount), 1);
    assert_eq!(socks5_expected_len(&SocksState::Methods { count: 7 }), 7);
    assert_eq!(socks5_expected_len(&SocksState::RequestHeader), 4);
    assert_eq!(socks5_expected_len(&SocksState::Ipv4Address), 6);
    assert_eq!(socks5_expected_len(&SocksState::DomainLength), 1);
    assert_eq!(socks5_expected_len(&SocksState::DomainAddress { len: 255 }), 257);
    assert_eq!(socks5_expected_len(&SocksState::Ipv6Address), 18);
}

/// The end-to-end SOCKS5 walk at the library level: greeting, auth reply,
/// IPv4 CONNECT request, success reply, then forwarding with an empty
/// policy leaves both directions' bytes unmodified.
#[test]
fn socks5_end_to_end_walk() {
    // Client greeting 0x05 0x01 0x00: the sniff consumes the version byte.
    assert_eq!(sniff_protocol(0x05), SniffedProtocol::Socks5);
    let mut state = SocksState::MethodCount;
    assert_eq!(socks5_expected_len(&state), 1);
    state = match socks5_step(&state, &[0x01]) {
        SocksAction::Continue { state } => state,
        other => panic!("unexpected action: {:?}", other),
    };
    assert_eq!(socks5_expected_len(&state), 1);
    state = match socks5_step(&state, &[0x00]) {
        SocksAction::SendAuthReply { state } => state,
        other => panic!("unexpected action: {:?}", other),
    };
    // The client receives 0x05 0x00.
    assert_eq!(socks5_auth_reply(), vec![0x05, 0x00]);

    // Request: 0x05 0x01 0x00 0x01, then 4 address bytes and the port.
    state = match socks5_step(&state, &[0x05, 0x01, 0x00, 0x01]) {
        SocksAction::Continue { state } => state,
        other => panic!("unexpected action: {:?}", other),
    };
    assert_eq!(socks5_expected_len(&state), 6);
    let target = match socks5_step(&state, &[127, 0, 0, 1, 0x1f, 0x90]) {
        SocksAction::Dial { target } => target,
        other => panic!("unexpected action: {:?}", other),
    };
    match target {
        TargetAddr::Ipv4 { octets, port } => {
            assert_eq!(octets, vec![127, 0, 0, 1]);
            assert_eq!(port, 8080);
        }
        other => panic!("unexpected target: {:?}", other),
    }
    assert_eq!(socks5_success_reply(), vec![0x05, 0x00, 0x00, 0x01, 0, 0, 0, 0, 0, 0]);

    // Forwarding: with no technique configured the client's bytes reach the
    // target as one unmodified instruction, and the target's bytes are
    // always copied verbatim.
    let engine = DesyncEngine::new(DesyncConfig::default());
    let payload = b"hello target".to_vec();
    match forward_step(&ReadEvent::Data { count: payload.len() }) {
        ForwardStep::Forward { count } => assert_eq!(count, payload.len()),
        other => panic!("unexpected step: {:?}", other),
    }
    let out = engine.apply_desync(&payload);
    assert_eq!(out.len(), 1);
    assert_eq!(out[0].data, payload);
    assert_eq!(out[0].delivery, Delivery::Normal);
}

#[test]
fn http_accumulation_walk() {
    let request = b"CONNECT example.com:443 HTTP/1.1\r\n\r\n";
    let mut state = HttpAccumState::RequestLine;
    let mut buf: Vec<u8> = Vec::new();
    let mut done = false;
    for &byte in request.iter() {
        assert!(!done, "accumulation finished early");
        buf.push(byte);
        match http_accum_step(&state, &buf) {
            HttpAccumAction::NeedMore { state: next } => state = next,
            HttpAccumAction::Done => done = true,
            HttpAccumAction::TooLong => panic!("request wrongly judged too long"),
        }
    }
    assert!(done);
    assert_eq!(buf.as_slice(), request.as_slice());
    let (host, port) = stpro::packets::parse_http_connect(&buf).unwrap();
    assert_eq!(host, "example.com");
    assert_eq!(port, 443);
}

#[test]
fn http_request_line_transition() {
    let state = HttpAccumState::RequestLine;
    assert_eq!(
        http_accum_step(&state, b"CONNECT x:1"),
        HttpAccumAction::NeedMore { state: HttpAccumState::RequestLine }
    );
    assert_eq!(
        http_accum_step(&state, b"CONNECT x:1 HTTP/1.1\r\n"),
        HttpAccumAction::NeedMore { state: HttpAccumState::Headers }
    );
}

#[test]
fn http_oversized_request_is_fatal() {
    let big = vec![b'a'; 8193];
    assert_eq!(http_accum_step(&HttpAccumState::RequestLine, &big), HttpAccumAction::TooLong);
    assert_eq!(http_accum_step(&HttpAccumState::Headers, &big), HttpAccumAction::TooLong);
    let at_cap = vec![b'a'; 8192];
    assert_eq!(
        http_accum_step(&HttpAccumState::RequestLine, &at_cap),
        HttpAccumAction::NeedMore { state: HttpAccumState::RequestLine }
    );
}

#[test]
fn http_success_response_bytes() {
    assert_eq!(
        http_connect_response(),
        b"HTTP/1.1 200 Connection Established\r\n\r\n".to_vec()
    );
}

#[test]
fn forwarding_decisions() {
    assert_eq!(forward_step(&ReadEvent::Eof), ForwardStep::Stop);
    assert_eq!(forward_step(&ReadEvent::Data { count: 0 }), ForwardStep::Stop);
    assert_eq!(forward_step(&ReadEvent::Data { count: 17 }), ForwardStep::Forward { count: 17 });
    assert_eq!(forward_step(&ReadEvent::Reset), ForwardStep::Stop);
    assert_eq!(forward_step(&ReadEvent::Failed), ForwardStep::Abort);
}

#[test]
fn ipv4_step_reads_octets_and_port() {
    let action = socks5_step(&SocksState::Ipv4Address, &[10, 0, 0, 7, 0x00, 0x16]);
    match action {
        SocksAction::Dial { target: TargetAddr::Ipv4 { octets, port } } => {
            assert_eq!(octets, vec![10, 0, 0, 7]);
            assert_eq!(port, 22);
        }
        other => panic!("unexpected action: {:?}", other),
    }
}
