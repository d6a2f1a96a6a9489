use http_core::{
    BodySize, ConnectionState, H2Action, H2BodyEncoder, H2Dispatcher, H2Event, H2PingPong,
    HeaderMap, HttpServiceError, PingPongAction, ResponseHead, TimeoutError, Version,
};

fn date() -> &'static [u8] {
    b"Thu, 01 Jan 1970 00:00:00 GMT"
}

fn head_with(pairs: &[(&[u8], &[u8])]) -> ResponseHead {
    let mut headers = HeaderMap::new();
    for (n, v) in pairs {
        headers.append(n, v.to_vec());
    }
    ResponseHead { status: 200, version: Version::Http11, headers }
}

#[test]
fn h2_goaway_on_close_header() {
    let mut head = head_with(&[(b"connection", b"close"), (b"date", date())]);
    let (is_eof, state) = http_core::h2::prepare_h2_response(&mut head, BodySize::Empty, date());
    assert!(is_eof);
    assert_eq!(state, ConnectionState::Close);
    assert!(!head.headers.contains_key(b"connection"));
    assert_eq!(head.version, Version::Http2);

    let mut disp = H2Dispatcher::new();
    assert_eq!(disp.on_event(H2Event::Accepted), H2Action::SpawnStream);
    assert_eq!(disp.on_event(H2Event::StreamClose), H2Action::SendGoAway);
    assert_eq!(disp.on_event(H2Event::Accepted), H2Action::Ignore);
    assert_eq!(disp.on_event(H2Event::StreamKeepAlive), H2Action::Ignore);
    assert_eq!(disp.on_event(H2Event::PeerClosed), H2Action::Drain);
}

#[test]
fn h2_close_header_case_insensitive() {
    let mut head = head_with(&[(b"Connection", b"CLOSE"), (b"date", date())]);
    let (_, state) = http_core::h2::prepare_h2_response(&mut head, BodySize::Empty, date());
    assert_eq!(state, ConnectionState::Close);
}

#[test]
fn h2_prepare_inserts_content_length_and_date() {
    let mut head = head_with(&[]);
    let (is_eof, state) = http_core::h2::prepare_h2_response(&mut head, BodySize::Fixed(5), date());
    assert!(!is_eof);
    assert_eq!(state, ConnectionState::KeepAlive);
    assert_eq!(head.headers.get_first(b"content-length").unwrap().as_slice(), b"5");
    assert_eq!(head.headers.get_first(b"date").unwrap().as_slice(), date());
}

#[test]
fn h2_prepare_keeps_existing_content_length() {
    let mut head = head_with(&[(b"content-length", b"9")]);
    let (is_eof, _) = http_core::h2::prepare_h2_response(&mut head, BodySize::Fixed(9), date());
    assert!(!is_eof);
    let all = head.headers.get_all(b"content-length");
    assert_eq!(all.len(), 1);
    assert_eq!(all[0].as_slice(), b"9");
}

#[test]
fn sized_body_writes_exactly_its_bytes() {
    let mut enc = H2BodyEncoder::new();
    enc.begin_chunk(b"0123456789".to_vec());
    assert_eq!(enc.reserve_amount(), 10);
    let f1 = enc.grant(4);
    assert_eq!(f1.as_slice(), b"0123");
    let f2 = enc.grant(4);
    assert_eq!(f2.as_slice(), b"4567");
    let f3 = enc.grant(100);
    assert_eq!(f3.as_slice(), b"89");
    assert!(enc.chunk_done());
    enc.begin_chunk(b"ab".to_vec());
    let f4 = enc.grant(2);
    assert_eq!(f4.as_slice(), b"ab");
    assert!(enc.chunk_done());
    assert_eq!(f1.len() + f2.len() + f3.len() + f4.len(), 12);
}

#[test]
fn reserve_amount_caps_at_chunk_size() {
    let mut enc = H2BodyEncoder::new();
    enc.begin_chunk(vec![0u8; 20000]);
    assert_eq!(enc.reserve_amount(), 16384);
    let f = enc.grant(16384);
    assert_eq!(f.len(), 16384);
    assert_eq!(enc.reserve_amount(), 20000 - 16384);
}

#[test]
fn missed_pong_is_fatal() {
    let mut pp = H2PingPong::new(0, 1000);
    assert_eq!(pp.on_timer(1000), PingPongAction::SendPing);
    // no PONG within ten keep-alive intervals: the next timer fire kills
    // the connection
    assert_eq!(pp.on_timer(11000), PingPongAction::Fatal);
}

#[test]
fn pong_rearms_the_interval() {
    let mut pp = H2PingPong::new(0, 1000);
    assert_eq!(pp.on_timer(1000), PingPongAction::SendPing);
    pp.on_pong(1500);
    assert_eq!(pp.on_timer(2500), PingPongAction::SendPing);
}

#[test]
fn h2_service_phase_mapping() {
    assert_eq!(
        http_core::h2::map_tls_accept::<u8>(None),
        Err(HttpServiceError::Timeout(TimeoutError::TlsAccept))
    );
    assert_eq!(http_core::h2::map_tls_accept(Some(7u8)), Ok(7u8));
    assert_eq!(
        http_core::h2::map_h2_handshake::<u8>(None),
        Err(HttpServiceError::Timeout(TimeoutError::H2Handshake))
    );
    assert_eq!(http_core::h2::service_ready(true, true), Ok(()));
    assert_eq!(
        http_core::h2::service_ready(true, false),
        Err(HttpServiceError::ServiceReady)
    );
}
