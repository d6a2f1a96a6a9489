use http_core::{
    BodyError, ConnectionType, Context, ContextState, HandshakeError, HeaderMap, Method, OpCode,
    ProtocolError, Version,
};

#[test]
fn context_reset_restores_keep_alive_and_clears_flags() {
    let date = 0u8;
    let mut ctx: Context<'_, u8, 96> = Context::new(&date);
    assert_eq!(ctx.ctype(), ConnectionType::Init);
    assert!(!ctx.is_expect_header());
    ctx.set_expect_header();
    ctx.set_connect_method();
    ctx.set_force_close_on_error();
    assert!(ctx.is_expect_header());
    assert!(ctx.is_connect_method());
    assert!(ctx.is_connection_closed());
    ctx.reset();
    assert_eq!(ctx.ctype(), ConnectionType::KeepAlive);
    assert!(!ctx.is_expect_header());
    assert!(!ctx.is_connect_method());
    assert!(!ctx.is_connection_closed());
}

#[test]
fn context_recycles_header_map() {
    let date = 0u8;
    let mut ctx: Context<'_, u8, 96> = Context::new(&date);
    let mut map = ctx.take_headers();
    assert!(map.is_empty());
    map.append(b"host", b"x".to_vec());
    map.clear();
    ctx.replace_headers(map);
    let map = ctx.take_headers();
    assert!(map.is_empty());
}

#[test]
fn context_force_close_spares_upgrade() {
    let date = 0u8;
    let mut ctx: Context<'_, u8, 96> = Context::new(&date);
    ctx.set_ctype(ConnectionType::Upgrade);
    ctx.set_force_close_on_non_eof();
    assert_eq!(ctx.ctype(), ConnectionType::Upgrade);
    ctx.set_ctype(ConnectionType::KeepAlive);
    ctx.set_force_close_on_non_eof();
    assert_eq!(ctx.ctype(), ConnectionType::CloseForce);
}

#[test]
fn context_state_bits() {
    let mut s = ContextState::new();
    assert!(!s.contains(ContextState::EXPECT));
    s.insert(ContextState::EXPECT);
    assert!(s.contains(ContextState::EXPECT));
    assert!(!s.contains(ContextState::CONNECT));
    s.insert(ContextState::CONNECT);
    assert!(s.contains(ContextState::CONNECT));
    assert!(s.contains(ContextState::EXPECT));
}

#[test]
fn basic_context_defaults() {
    let ctx = http_core::basic_context::Context::new();
    assert_eq!(ctx.ctype, ConnectionType::Close);
    assert_eq!(ctx.method, Method::Get);
    assert!(!ctx.flag.keep_alive_enable());
    assert!(ctx.header_cache.is_none());
    let flag = http_core::basic_context::ContextFlag::new(true);
    assert!(flag.keep_alive_enable());
}

#[test]
fn protocol_error_messages() {
    assert_eq!(
        ProtocolError::UnmaskedFrame.message(),
        "Received an unmasked frame from client."
    );
    assert_eq!(
        ProtocolError::InvalidOpcode(200).message(),
        " Encountered invalid OpCode: 200"
    );
    assert_eq!(
        ProtocolError::InvalidLength(12345).message(),
        "Invalid control frame length: 12345."
    );
    assert_eq!(
        ProtocolError::ContinuationFragment(OpCode::Ping).message(),
        "Unknown continuation fragment with OpCode: Ping."
    );
    assert_eq!(ProtocolError::Overflow.message(), "A payload reached size limit.");
}

#[test]
fn handshake_error_messages() {
    assert_eq!(HandshakeError::GetMethodRequired.message(), "Only get method is allowed.");
    assert_eq!(
        HandshakeError::NoWebsocketUpgrade.message(),
        "Upgrade header is not set to websocket."
    );
    assert_eq!(
        HandshakeError::BadWebsocketKey.message(),
        "WebSocket key is not set or wrong."
    );
}

#[test]
fn protocol_error_from_conversions() {
    let e = ProtocolError::from(OpCode::Binary);
    assert!(matches!(e, ProtocolError::ContinuationFragment(OpCode::Binary)));
    let io = std::io::Error::new(std::io::ErrorKind::Other, "boom");
    let e = ProtocolError::from(io);
    assert!(matches!(e, ProtocolError::Io(_)));
    let io = std::io::Error::new(std::io::ErrorKind::Other, "boom");
    let r = http_core::RustlsError::from(io);
    let t = http_core::TlsError::from(r);
    assert!(matches!(t, http_core::TlsError::Rustls(_)));
}

#[test]
fn body_error_kinds_are_distinct() {
    assert_ne!(BodyError::OverFlow, BodyError::InvalidUtf8);
}

#[test]
fn header_map_is_an_ordered_case_insensitive_multimap() {
    let mut h = HeaderMap::new();
    h.append(b"Set-Cookie", b"a=1".to_vec());
    h.append(b"SET-COOKIE", b"b=2".to_vec());
    assert_eq!(h.len(), 2);
    assert!(h.contains_key(b"set-cookie"));
    let all = h.get_all(b"set-cookie");
    assert_eq!(all.len(), 2);
    assert_eq!(all[0].as_slice(), b"a=1");
    assert_eq!(all[1].as_slice(), b"b=2");
    assert_eq!(h.get_first(b"Set-Cookie").unwrap().as_slice(), b"a=1");
    let removed = h.remove(b"set-cookie");
    assert_eq!(removed.unwrap().as_slice(), b"a=1");
    assert!(h.is_empty());
    h.insert(b"x", b"1".to_vec());
    h.insert(b"x", b"2".to_vec());
    assert_eq!(h.len(), 1);
    assert_eq!(h.get_first(b"x").unwrap().as_slice(), b"2");
}

#[test]
fn ascii_helpers() {
    assert!(http_core::header::eq_ignore_ascii_case(b"Close", b"cLOSE"));
    assert!(!http_core::header::eq_ignore_ascii_case(b"close", b"closed"));
    assert!(http_core::header::bytes_eq(b"abc", b"abc"));
    assert!(!http_core::header::bytes_eq(b"abc", b"abd"));
    assert_eq!(http_core::header::lower_vec(b"MiXeD-42").as_slice(), b"mixed-42");
}

#[test]
fn digit_formatting_and_parsing() {
    assert_eq!(http_core::digits::u64_to_dec(0).as_slice(), b"0");
    assert_eq!(http_core::digits::u64_to_dec(10475).as_slice(), b"10475");
    assert_eq!(http_core::digits::parse_dec_usize(b"0"), Some(0));
    assert_eq!(http_core::digits::parse_dec_usize(b"9437184"), Some(9437184));
    assert_eq!(http_core::digits::parse_dec_usize(b""), None);
    assert_eq!(http_core::digits::parse_dec_usize(b"12x"), None);
    assert_eq!(http_core::digits::parse_dec_usize(b"99999999999999999999"), None);
}

#[test]
fn keep_alive_timer_moves_both_ways() {
    let mut t = http_core::KeepAliveTimer::new(1_000);
    assert!(!t.poll(999));
    assert!(t.poll(1_000));
    t.update(500);
    assert!(t.poll(700));
    t.update(2_000);
    assert!(!t.poll(700));
    assert_eq!(t.deadline(), 2_000);
}

#[test]
fn date_handle_caches_preformatted_string() {
    let stamp = b"Thu, 01 Jan 1970 00:00:00 GMT".to_vec();
    assert_eq!(stamp.len(), http_core::date::DATE_VALUE_LENGTH);
    let mut h = http_core::DateTimeHandle::new(stamp.clone());
    assert_eq!(h.with_date(), stamp.as_slice());
    let stamp2 = b"Fri, 02 Jan 1970 00:00:00 GMT".to_vec();
    h.update(stamp2.clone());
    assert_eq!(h.with_date(), stamp2.as_slice());
}

#[test]
fn alpn_selects_version() {
    assert_eq!(http_core::types::version_from_alpn(Some(b"h2")), Version::Http2);
    assert_eq!(http_core::types::version_from_alpn(Some(b"http/1.1")), Version::Http11);
    assert_eq!(http_core::types::version_from_alpn(None), Version::Http11);
}

#[test]
fn expect_handler_passes_requests_through() {
    let handler: http_core::ExpectHandler<u8> = http_core::ExpectHandler::new();
    assert!(handler.ready().is_ok());
    assert!(handler.new_service().is_ok());
    assert_eq!(handler.call(42u32), Ok(42u32));
}

#[test]
fn h3_service_wraps_and_reports_readiness() {
    let svc = http_core::H3Service::new(7u8);
    assert_eq!(*svc.service(), 7u8);
    assert!(http_core::h3::h3_ready(true).is_ok());
    assert!(matches!(
        http_core::h3::h3_ready(false),
        Err(http_core::HttpServiceError::ServiceReady)
    ));
}
