//! Tests of the packet inspection functions.

use stpro::packets::{
    find_http_host_offset, find_sni_offset, is_http, is_tls_chello, parse_http_connect,
    split_tls_record,
};

/// A minimal ClientHello with an SNI extension carrying `hostname`.
/// Layout: record header (5), handshake header (4), version (2),
/// random (32), session id length 0 (1), cipher suites (2 + 2),
/// compression methods (1 + 1), extensions length (2), then extensions.
fn build_client_hello(extensions: &[u8]) -> Vec<u8> {
    let mut body: Vec<u8> = Vec::new();
    body.extend_from_slice(&[0x01, 0x00, 0x00, 0x00]); // handshake header
    body.extend_from_slice(&[0x03, 0x03]); // client version
    body.extend_from_slice(&[0u8; 32]); // random
    body.push(0x00); // session id length
    body.extend_from_slice(&[0x00, 0x02, 0x13, 0x01]); // cipher suites
    body.extend_from_slice(&[0x01, 0x00]); // compression methods
    body.push((extensions.len() >> 8) as u8);
    body.push(extensions.len() as u8);
    body.extend_from_slice(extensions);

    let mut buf: Vec<u8> = vec![0x16, 0x03, 0x01];
    buf.push((body.len() >> 8) as u8);
    buf.push(body.len() as u8);
    buf.extend_from_slice(&body);
    buf
}

fn sni_extension(hostname: &[u8]) -> Vec<u8> {
    let mut ext: Vec<u8> = Vec::new();
    ext.extend_from_slice(&[0x00, 0x00]); // extension type: server name
    let inner_len = hostname.len() + 5;
    ext.push((inner_len >> 8) as u8);
    ext.push(inner_len as u8);
    let list_len = hostname.len() + 3;
    ext.push((list_len >> 8) as u8);
    ext.push(list_len as u8);
    ext.push(0x00); // name type: hostname
    ext.push((hostname.len() >> 8) as u8);
    ext.push(hostname.len() as u8);
    ext.extend_from_slice(hostname);
    ext
}

#[test]
fn tls_chello_detection() {
    let hello = build_client_hello(&sni_extension(b"example.com"));
    assert!(is_tls_chello(&hello));
    assert!(!is_tls_chello(&[0x16, 0x03]));
    assert!(!is_tls_chello(&[0x17, 0x03, 0x01, 0x00, 0x00]));
    assert!(!is_tls_chello(&[0x16, 0x03, 0x05, 0x00, 0x00]));
    assert!(!is_tls_chello(&[0x16, 0x02, 0xff, 0x00, 0x00]));
    assert!(is_tls_chello(&[0x16, 0x03, 0x04, 0x00, 0x00]));
}

#[test]
fn sni_offset_of_synthetic_client_hello() {
    let hostname = b"example.com";
    let hello = build_client_hello(&sni_extension(hostname));
    // Fixed prefix 43, session id 1, cipher suites 2 + 2, compression
    // 1 + 1, extensions length 2: extensions begin at 52; inside the SNI
    // extension the hostname begins 9 bytes further.
    let expected = 52 + 9;
    assert_eq!(find_sni_offset(&hello), Some(expected));
    assert_eq!(&hello[expected..expected + hostname.len()], hostname);
}

#[test]
fn sni_offset_none_on_wrong_content_type() {
    let mut hello = build_client_hello(&sni_extension(b"example.com"));
    hello[0] = 0x17;
    assert_eq!(find_sni_offset(&hello), None);
}

#[test]
fn sni_offset_none_on_bad_version() {
    let mut hello = build_client_hello(&sni_extension(b"example.com"));
    hello[2] = 0x05;
    assert_eq!(find_sni_offset(&hello), None);
}

#[test]
fn sni_offset_none_on_truncation() {
    let hello = build_client_hello(&sni_extension(b"example.com"));
    // The walk completes once the hostname length field is readable, at 61
    // bytes; truncating inside any earlier parse step must yield None, not
    // a panic.
    for cut in 0..61 {
        assert_eq!(find_sni_offset(&hello[..cut]), None, "cut at {}", cut);
    }
    for cut in 61..hello.len() {
        assert_eq!(find_sni_offset(&hello[..cut]), Some(61), "cut at {}", cut);
    }
}

#[test]
fn sni_offset_none_without_sni_extension() {
    // A single extension of another type (supported_versions).
    let ext = [0x00, 0x2b, 0x00, 0x03, 0x02, 0x03, 0x04];
    let hello = build_client_hello(&ext);
    assert_eq!(find_sni_offset(&hello), None);
}

#[test]
fn sni_offset_none_on_non_hostname_name_type() {
    let mut ext = sni_extension(b"example.com");
    ext[6] = 0x01; // name type other than hostname
    let hello = build_client_hello(&ext);
    assert_eq!(find_sni_offset(&hello), None);
}

#[test]
fn sni_offset_skips_leading_extension() {
    let mut ext = vec![0x00, 0x2b, 0x00, 0x03, 0x02, 0x03, 0x04];
    let sni = sni_extension(b"host.test");
    ext.extend_from_slice(&sni);
    let hello = build_client_hello(&ext);
    let expected = 52 + 7 + 9;
    assert_eq!(find_sni_offset(&hello), Some(expected));
    assert_eq!(&hello[expected..expected + 9], b"host.test");
}

#[test]
fn http_method_detection() {
    assert!(is_http(b"GET / HTTP/1.1"));
    assert!(is_http(b"POST /x"));
    assert!(is_http(b"PUT /y"));
    assert!(is_http(b"HEAD"));
    assert!(is_http(b"DELETE /"));
    assert!(is_http(b"OPTIONS *"));
    assert!(is_http(b"CONNECT a:1"));
    assert!(is_http(b"TRACE /"));
    assert!(is_http(b"PATCH /"));
    assert!(!is_http(b"FOO /"));
    assert!(!is_http(b"GE"));
    assert!(!is_http(b""));
}

#[test]
fn host_header_offset() {
    let buf = b"GET / HTTP/1.1\r\nHost: example.com\r\n\r\n";
    let off = find_http_host_offset(buf).unwrap();
    assert_eq!(&buf[off..off + 11], b"example.com");
    assert_eq!(find_http_host_offset(b"GET / HTTP/1.1\r\n\r\n"), None);
    assert_eq!(find_http_host_offset(b"host: lower.example"), None);
    assert_eq!(find_http_host_offset(b"Host: "), Some(6));
}

#[test]
fn parse_http_connect_well_formed() {
    let buf = b"CONNECT example.com:443 HTTP/1.1\r\nHost: example.com\r\n\r\n";
    let (host, port) = parse_http_connect(buf).unwrap();
    assert_eq!(host, "example.com");
    assert_eq!(port, 443);
}

#[test]
fn parse_http_connect_missing_colon() {
    assert_eq!(parse_http_connect(b"CONNECT example.com HTTP/1.1\r\n\r\n"), None);
}

#[test]
fn parse_http_connect_non_numeric_port() {
    assert_eq!(parse_http_connect(b"CONNECT example.com:https HTTP/1.1\r\n\r\n"), None);
    assert_eq!(parse_http_connect(b"CONNECT example.com: HTTP/1.1\r\n\r\n"), None);
    assert_eq!(parse_http_connect(b"CONNECT example.com:70000 HTTP/1.1\r\n\r\n"), None);
}

#[test]
fn parse_http_connect_rejects_invalid_utf8() {
    // The byte structure is fine, but the trailing header bytes are not
    // UTF-8, so the whole request is refused.
    let mut buf = b"CONNECT example.com:443 HTTP/1.1\r\nX: ".to_vec();
    buf.extend_from_slice(&[0xff, 0xfe]);
    buf.extend_from_slice(b"\r\n\r\n");
    assert_eq!(parse_http_connect(&buf), None);
}

#[test]
fn parse_http_connect_other_method() {
    assert_eq!(parse_http_connect(b"GET /path HTTP/1.1\r\n\r\n"), None);
    assert_eq!(parse_http_connect(b""), None);
}

#[test]
fn parse_http_connect_non_ascii_host() {
    let buf = "CONNECT b\u{fc}cher.example:80 HTTP/1.1\r\n\r\n".as_bytes();
    let (host, port) = parse_http_connect(buf).unwrap();
    assert_eq!(host, "b\u{fc}cher.example");
    assert_eq!(port, 80);
}

#[test]
fn split_record_in_place() {
    // Record of 10 payload bytes, split after 2 payload bytes.
    let mut buf: Vec<u8> = vec![0x16, 0x03, 0x01, 0x00, 0x0a];
    buf.extend_from_slice(&[1, 2, 3, 4, 5, 6, 7, 8, 9, 10]);
    let r = split_tls_record(&mut buf, 7);
    assert!(r.is_ok());
    let expected: Vec<u8> = vec![
        0x16, 0x03, 0x01, 0x00, 0x02, // first record: 2 bytes
        1, 2, //
        0x16, 0x03, 0x01, 0x00, 0x08, // synthesized second header: 8 bytes
        3, 4, 5, 6, 7, 8, 9, 10,
    ];
    assert_eq!(buf, expected);
}

#[test]
fn split_record_insufficient_room() {
    let mut buf: Vec<u8> = vec![0x16, 0x03, 0x01, 0x00, 0x02, 1, 2];
    let before = buf.clone();
    let r = split_tls_record(&mut buf, 5);
    assert!(r.is_err());
    assert_eq!(buf, before);
}
