use http_core::{
    BodyError, BodyEvent, ClientResponse, CollectError, ConnKind, HeaderMap, Method, RequestHead,
    ResponseHead, SendError, TimeoutError, Version, DEFAULT_PAYLOAD_LIMIT,
};

fn response_head(cl: Option<&[u8]>) -> ResponseHead {
    let mut headers = HeaderMap::new();
    if let Some(v) = cl {
        headers.append(b"content-length", v.to_vec());
    }
    ResponseHead { status: 200, version: Version::Http11, headers }
}

#[test]
fn collect_limit_is_min_of_content_length_and_ceiling() {
    let h = response_head(Some(b"9437184")).headers;
    assert_eq!(http_core::client::collect_limit(&h, DEFAULT_PAYLOAD_LIMIT), 8388608);
    let h = response_head(Some(b"100")).headers;
    assert_eq!(http_core::client::collect_limit(&h, DEFAULT_PAYLOAD_LIMIT), 100);
    let h = response_head(None).headers;
    assert_eq!(http_core::client::collect_limit(&h, DEFAULT_PAYLOAD_LIMIT), DEFAULT_PAYLOAD_LIMIT);
    let h = response_head(Some(b"not-a-number")).headers;
    assert_eq!(http_core::client::collect_limit(&h, 4096), 4096);
}

#[test]
fn client_payload_overflow() {
    // the server promises a nine-mebibyte body; the default ceiling is
    // eight, so collection must fail and poison the connection
    let mut res = ClientResponse::new(response_head(Some(b"9437184")), 15_000);
    let chunk = vec![0u8; 1024 * 1024];
    let events: Vec<BodyEvent> = (0..9).map(|_| BodyEvent::Chunk(chunk.clone())).collect();
    let out = res.collect(&events);
    assert_eq!(out, Err(CollectError::Body(BodyError::OverFlow)));
    assert!(res.is_close_connection());
}

#[test]
fn collect_within_limit_returns_all_bytes() {
    let mut res = ClientResponse::new(response_head(Some(b"11")), 15_000);
    let events = vec![
        BodyEvent::Chunk(b"Hello ".to_vec()),
        BodyEvent::Chunk(b"World".to_vec()),
    ];
    let out = res.collect(&events).unwrap();
    assert_eq!(out.as_slice(), b"Hello World");
    assert!(!res.is_close_connection());
}

#[test]
fn collect_timeout_destroys_connection() {
    let mut res = ClientResponse::new(response_head(None), 15_000);
    let events = vec![BodyEvent::Chunk(b"partial".to_vec()), BodyEvent::TimedOut];
    let out = res.collect(&events);
    assert_eq!(out, Err(CollectError::Timeout(TimeoutError::Response)));
    assert!(res.is_close_connection());
}

#[test]
fn collect_stream_error_destroys_connection() {
    let mut res = ClientResponse::new(response_head(None), 15_000);
    let events = vec![BodyEvent::Failed(BodyError::InvalidUtf8)];
    assert_eq!(res.collect(&events), Err(CollectError::Body(BodyError::InvalidUtf8)));
    assert!(res.is_close_connection());
}

#[test]
fn string_collection_checks_utf8_per_chunk() {
    let mut res = ClientResponse::new(response_head(None), 15_000);
    let events = vec![
        BodyEvent::Chunk("Grüße, ".as_bytes().to_vec()),
        BodyEvent::Chunk("Welt".as_bytes().to_vec()),
    ];
    let out = res.string(&events).unwrap();
    assert_eq!(out, "Grüße, Welt");
    assert!(!res.is_close_connection());

    let mut res = ClientResponse::new(response_head(None), 15_000);
    // the two bytes of an encoded character split across chunks: each
    // chunk must be valid on its own, so this fails
    let encoded = "ü".as_bytes();
    let events = vec![
        BodyEvent::Chunk(vec![encoded[0]]),
        BodyEvent::Chunk(vec![encoded[1]]),
    ];
    assert_eq!(res.string(&events), Err(CollectError::Body(BodyError::InvalidUtf8)));
    assert!(res.is_close_connection());
}

#[test]
fn string_collection_respects_limit() {
    let mut res = ClientResponse::new(response_head(Some(b"4")), 15_000);
    let events = vec![BodyEvent::Chunk(b"12345".to_vec())];
    assert_eq!(res.string(&events), Err(CollectError::Body(BodyError::OverFlow)));
    assert!(res.is_close_connection());
}

#[test]
fn response_builders_change_one_setting() {
    let res = ClientResponse::new(response_head(None), 15_000);
    let res = res.limit(4096);
    let mut res = res.timeout(30_000);
    assert!(!res.is_close_connection());
    assert_eq!(res.inner().status, 200);
}

#[test]
fn response_close_mirrors_server_rules() {
    let h = response_head(None).headers;
    assert!(http_core::client::response_is_close(Version::Http10, &h));
    assert!(!http_core::client::response_is_close(Version::Http11, &h));
    let mut h = HeaderMap::new();
    h.append(b"connection", b"close".to_vec());
    assert!(http_core::client::response_is_close(Version::Http11, &h));
    let mut h = HeaderMap::new();
    h.append(b"connection", b"keep-alive".to_vec());
    assert!(!http_core::client::response_is_close(Version::Http10, &h));
}

#[test]
fn send_conclusions() {
    assert_eq!(
        http_core::client::conclude_h1_send::<u8, u8>(Some(Ok((7, false)))),
        (Ok(7), false)
    );
    assert_eq!(
        http_core::client::conclude_h1_send::<u8, u8>(Some(Ok((7, true)))),
        (Ok(7), true)
    );
    assert_eq!(
        http_core::client::conclude_h1_send::<u8, u8>(Some(Err(3))),
        (Err(SendError::Inner(3)), true)
    );
    assert_eq!(
        http_core::client::conclude_h1_send::<u8, u8>(None),
        (Err(SendError::Timeout(TimeoutError::Request)), true)
    );
    assert_eq!(http_core::client::conclude_mux_send::<u8, u8>(Some(Ok(7))), (Ok(7), false));
    assert_eq!(
        http_core::client::conclude_mux_send::<u8, u8>(None),
        (Err(SendError::Timeout(TimeoutError::Request)), true)
    );
}

#[test]
fn initial_timeout_and_protocol_choice() {
    assert_eq!(http_core::client::initial_timeout(false, 5_000, 15_000), 5_000);
    assert_eq!(http_core::client::initial_timeout(true, 5_000, 15_000), 15_000);
    assert!(http_core::client::uses_h1(ConnKind::Tcp));
    assert!(http_core::client::uses_h1(ConnKind::Tls));
    assert!(http_core::client::uses_h1(ConnKind::Unix));
    assert!(!http_core::client::uses_h1(ConnKind::H2));
    assert!(!http_core::client::uses_h1(ConnKind::H3));
}

#[test]
fn request_builder_sets_framing_headers() {
    let head = RequestHead {
        method: Method::Get,
        uri: b"/".to_vec(),
        version: Version::Http11,
        headers: HeaderMap::new(),
    };
    let req = http_core::ClientRequest::new(head, 15_000);
    let req = req.method(Method::Post).timeout(2_000);
    let req = req.text(b"hello".to_vec());
    assert_eq!(req.timeout_ms, 2_000);
    assert_eq!(req.head.method, Method::Post);
    assert_eq!(
        req.head.headers.get_first(b"content-type").unwrap().as_slice(),
        b"text/plain; charset=utf-8"
    );
    assert_eq!(req.head.headers.get_first(b"content-length").unwrap().as_slice(), b"5");

    let head = RequestHead {
        method: Method::Get,
        uri: b"/".to_vec(),
        version: Version::Http11,
        headers: HeaderMap::new(),
    };
    let req = http_core::ClientRequest::new(head, 15_000);
    let req = req.json_body(b"{\"a\":1}".to_vec());
    assert_eq!(
        req.head.headers.get_first(b"content-type").unwrap().as_slice(),
        b"application/json"
    );
    assert_eq!(req.head.headers.get_first(b"content-length").unwrap().as_slice(), b"7");
}
