use http_core::{
    BodySize, ConnectionType, HeaderMap, Method, ProtoError, TransferCoding, Version,
};

fn headers_of(pairs: &[(&[u8], &[u8])]) -> HeaderMap {
    let mut h = HeaderMap::new();
    for (n, v) in pairs {
        h.append(n, v.to_vec());
    }
    h
}

#[test]
fn request_line_parses() {
    let r = http_core::codec::parse_request_line(b"GET /index.html HTTP/1.1").unwrap();
    assert_eq!(r.0, Method::Get);
    assert_eq!(r.1.as_slice(), b"/index.html");
    assert_eq!(r.2, Version::Http11);
    let r = http_core::codec::parse_request_line(b"CONNECT host:443 HTTP/1.0").unwrap();
    assert_eq!(r.0, Method::Connect);
    assert_eq!(r.2, Version::Http10);
}

#[test]
fn request_line_rejects_garbage() {
    assert_eq!(
        http_core::codec::parse_request_line(b"NONSENSE"),
        Err(ProtoError::InvalidRequestLine)
    );
    assert_eq!(
        http_core::codec::parse_request_line(b"GET /"),
        Err(ProtoError::InvalidRequestLine)
    );
    assert_eq!(
        http_core::codec::parse_request_line(b"GET / HTTP/2.5"),
        Err(ProtoError::InvalidRequestLine)
    );
    assert_eq!(
        http_core::codec::parse_request_line(b"BREW / HTTP/1.1"),
        Err(ProtoError::InvalidRequestLine)
    );
}

#[test]
fn header_line_parses_and_trims() {
    let (n, v) = http_core::codec::parse_header_line(b"Host:  example.com \t").unwrap();
    assert_eq!(n.as_slice(), b"Host");
    assert_eq!(v.as_slice(), b"example.com");
    let (n, v) = http_core::codec::parse_header_line(b"X-Empty:").unwrap();
    assert_eq!(n.as_slice(), b"X-Empty");
    assert_eq!(v.as_slice(), b"");
    assert_eq!(
        http_core::codec::parse_header_line(b"no colon here"),
        Err(ProtoError::InvalidHeader)
    );
}

#[test]
fn decode_head_round_trip() {
    let buf = b"POST /send HTTP/1.1\r\nHost: x\r\nContent-Length: 5\r\n\r\nhello";
    let (head, used) =
        http_core::codec::decode_head(buf, 96, HeaderMap::new()).unwrap().unwrap();
    assert_eq!(head.method, Method::Post);
    assert_eq!(head.uri.as_slice(), b"/send");
    assert_eq!(head.version, Version::Http11);
    assert_eq!(used, buf.len() - 5);
    assert_eq!(head.headers.get_first(b"host").unwrap().as_slice(), b"x");
    assert_eq!(head.headers.get_first(b"Content-Length").unwrap().as_slice(), b"5");
}

#[test]
fn decode_head_incomplete_asks_for_more() {
    let buf = b"GET / HTTP/1.1\r\nHost: x\r\n";
    assert!(http_core::codec::decode_head(buf, 96, HeaderMap::new()).unwrap().is_none());
}

#[test]
fn decode_head_enforces_header_limit() {
    let mut buf = b"GET / HTTP/1.1\r\n".to_vec();
    for i in 0..4 {
        buf.extend_from_slice(format!("h{}: v\r\n", i).as_bytes());
    }
    buf.extend_from_slice(b"\r\n");
    assert!(matches!(
        http_core::codec::decode_head(&buf, 3, HeaderMap::new()),
        Err(ProtoError::TooManyHeaders)
    ));
    assert!(http_core::codec::decode_head(&buf, 4, HeaderMap::new()).unwrap().is_some());
}

#[test]
fn framing_conflict_is_rejected() {
    let h = headers_of(&[(b"content-length", b"5"), (b"transfer-encoding", b"chunked")]);
    assert_eq!(
        http_core::codec::decide_request_framing(Method::Post, &h),
        Err(ProtoError::ConflictingFraming)
    );
}

#[test]
fn framing_differing_content_lengths_rejected() {
    let h = headers_of(&[(b"content-length", b"5"), (b"content-length", b"6")]);
    assert_eq!(
        http_core::codec::decide_request_framing(Method::Post, &h),
        Err(ProtoError::ConflictingFraming)
    );
    let h = headers_of(&[(b"content-length", b"5"), (b"content-length", b"5")]);
    assert_eq!(
        http_core::codec::decide_request_framing(Method::Post, &h),
        Ok(TransferCoding::Length(5))
    );
}

#[test]
fn framing_follows_rfc_rules() {
    let h = headers_of(&[]);
    assert_eq!(
        http_core::codec::decide_request_framing(Method::Get, &h),
        Ok(TransferCoding::NoBody)
    );
    let h = headers_of(&[(b"transfer-encoding", b"CHUNKED")]);
    assert_eq!(
        http_core::codec::decide_request_framing(Method::Post, &h),
        Ok(TransferCoding::Chunked)
    );
    let h = headers_of(&[(b"transfer-encoding", b"gzip")]);
    assert_eq!(
        http_core::codec::decide_request_framing(Method::Post, &h),
        Err(ProtoError::InvalidHeader)
    );
    let h = headers_of(&[(b"content-length", b"borked")]);
    assert_eq!(
        http_core::codec::decide_request_framing(Method::Post, &h),
        Err(ProtoError::InvalidHeader)
    );
    // a CONNECT request never carries its own body
    let h = headers_of(&[(b"content-length", b"5")]);
    assert_eq!(
        http_core::codec::decide_request_framing(Method::Connect, &h),
        Ok(TransferCoding::NoBody)
    );
}

#[test]
fn ctype_policy_matches_versions() {
    let none = headers_of(&[]);
    assert_eq!(
        http_core::codec::decide_ctype(Version::Http10, &none),
        ConnectionType::Close
    );
    assert_eq!(
        http_core::codec::decide_ctype(Version::Http11, &none),
        ConnectionType::KeepAlive
    );
    let ka = headers_of(&[(b"connection", b"Keep-Alive")]);
    assert_eq!(
        http_core::codec::decide_ctype(Version::Http10, &ka),
        ConnectionType::KeepAlive
    );
    let close = headers_of(&[(b"connection", b"close")]);
    assert_eq!(
        http_core::codec::decide_ctype(Version::Http11, &close),
        ConnectionType::Close
    );
    let upgrade = headers_of(&[(b"connection", b"upgrade"), (b"upgrade", b"websocket")]);
    assert_eq!(
        http_core::codec::decide_ctype(Version::Http11, &upgrade),
        ConnectionType::Upgrade
    );
}

#[test]
fn expect_detection_is_case_insensitive() {
    let h = headers_of(&[(b"expect", b"100-Continue")]);
    assert!(http_core::codec::is_expect_request(&h));
    let h = headers_of(&[(b"expect", b"202-maybe")]);
    assert!(!http_core::codec::is_expect_request(&h));
    let h = headers_of(&[]);
    assert!(!http_core::codec::is_expect_request(&h));
}

#[test]
fn response_head_encodes_with_date_stamp() {
    let h = headers_of(&[(b"content-length", b"0")]);
    let wire = http_core::codec::encode_response_head(200, b"OK", &h, b"D");
    assert_eq!(
        wire.as_slice(),
        b"HTTP/1.1 200 OK\r\ncontent-length: 0\r\ndate: D\r\n\r\n".as_slice()
    );
    let h = headers_of(&[(b"date", b"E")]);
    let wire = http_core::codec::encode_response_head(404, b"Not Found", &h, b"D");
    assert_eq!(wire.as_slice(), b"HTTP/1.1 404 Not Found\r\ndate: E\r\n\r\n".as_slice());
}

#[test]
fn response_framing_by_version_and_status() {
    assert_eq!(
        http_core::codec::decide_response_framing(Version::Http11, 200, BodySize::Stream),
        TransferCoding::Chunked
    );
    assert_eq!(
        http_core::codec::decide_response_framing(Version::Http10, 200, BodySize::Stream),
        TransferCoding::Eof
    );
    assert_eq!(
        http_core::codec::decide_response_framing(Version::Http11, 200, BodySize::Fixed(3)),
        TransferCoding::Length(3)
    );
    assert_eq!(
        http_core::codec::decide_response_framing(Version::Http11, 200, BodySize::Empty),
        TransferCoding::NoBody
    );
    // interim, no-content and not-modified responses never carry a body
    assert_eq!(
        http_core::codec::decide_response_framing(Version::Http11, 101, BodySize::Stream),
        TransferCoding::NoBody
    );
    assert_eq!(
        http_core::codec::decide_response_framing(Version::Http11, 204, BodySize::Fixed(3)),
        TransferCoding::NoBody
    );
    assert_eq!(
        http_core::codec::decide_response_framing(Version::Http11, 304, BodySize::Stream),
        TransferCoding::NoBody
    );
}

#[test]
fn overlong_head_line_is_rejected() {
    let mut buf = b"GET /".to_vec();
    buf.extend_from_slice(&vec![b'a'; 9000]);
    assert!(matches!(
        http_core::codec::decode_head(&buf, 96, HeaderMap::new()),
        Err(ProtoError::HeaderTooLarge)
    ));
}

#[test]
fn chunked_body_decodes() {
    let buf = b"4\r\nWiki\r\n5\r\npedia\r\n0\r\n\r\ntrailing";
    let (body, used) = http_core::codec::decode_chunked(buf).unwrap().unwrap();
    assert_eq!(body.as_slice(), b"Wikipedia");
    assert_eq!(used, buf.len() - b"trailing".len());
    assert_eq!(
        http_core::codec::decode_chunked(b"1a\r\n").unwrap(),
        None
    );
}

#[test]
fn chunked_body_rejects_bad_framing() {
    assert!(matches!(
        http_core::codec::decode_chunked(b"xyz\r\nWiki\r\n"),
        Err(ProtoError::ChunkedDecode)
    ));
    assert!(matches!(
        http_core::codec::decode_chunked(b"4\r\nWikiXX0\r\n\r\n"),
        Err(ProtoError::ChunkedDecode)
    ));
}

#[test]
fn drain_ceiling_bounds_discarded_bodies() {
    assert_eq!(http_core::dispatch::check_drain_ceiling(100, 65536), Ok(100));
    assert_eq!(
        http_core::dispatch::check_drain_ceiling(65537, 65536),
        Err(ProtoError::BodyOverflow)
    );
}

#[test]
fn chunked_encoding_frames() {
    let c = http_core::codec::encode_chunk(b"hello");
    assert_eq!(c.as_slice(), b"5\r\nhello\r\n".as_slice());
    let c = http_core::codec::encode_chunk(&[0u8; 26]);
    assert!(c.starts_with(b"1a\r\n"));
    let end = http_core::codec::encode_chunks_end();
    assert_eq!(end.as_slice(), b"0\r\n\r\n".as_slice());
}
