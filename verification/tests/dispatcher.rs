use http_core::dispatch::concat_segments;
use http_core::{ConnectionType, H1Action, H1Event, H1Response, H1State, HeaderMap};

fn ok_response() -> H1Response {
    let mut headers = HeaderMap::new();
    headers.append(b"content-length", b"0".to_vec());
    H1Response { status: 200, reason: b"OK".to_vec(), headers, body: Vec::new() }
}

fn serve(input: &[u8], n: usize) -> (Vec<Vec<u8>>, ConnectionType, usize) {
    let responses: Vec<H1Response> = (0..n).map(|_| ok_response()).collect();
    http_core::dispatch::serve_pipelined(input, 96, responses, b"Thu, 01 Jan 1970 00:00:00 GMT")
}

#[test]
fn h1_keep_alive_pipelining() {
    let input = b"GET /a HTTP/1.1\r\nHost: x\r\n\r\nGET /b HTTP/1.1\r\nHost: x\r\n\r\n";
    let (segs, ctype, _) = serve(input, 2);
    assert_eq!(segs.len(), 2);
    assert!(segs[0].starts_with(b"HTTP/1.1 200 OK\r\n"));
    assert!(segs[1].starts_with(b"HTTP/1.1 200 OK\r\n"));
    assert_eq!(ctype, ConnectionType::KeepAlive);
    let wire = concat_segments(&segs);
    assert_eq!(wire.len(), segs[0].len() + segs[1].len());
    assert_eq!(&wire[..segs[0].len()], segs[0].as_slice());
    assert_eq!(&wire[segs[0].len()..], segs[1].as_slice());
}

#[test]
fn h1_close_on_http10() {
    let input = b"GET / HTTP/1.0\r\nHost: x\r\n\r\n";
    let (segs, ctype, _) = serve(input, 2);
    assert_eq!(segs.len(), 1);
    assert!(segs[0].starts_with(b"HTTP/1.1 200 OK\r\n"));
    assert_eq!(ctype, ConnectionType::Close);
}

#[test]
fn expect_100_continue_written_first() {
    let input = b"POST / HTTP/1.1\r\nHost: x\r\nExpect: 100-continue\r\nContent-Length: 5\r\n\r\nhello";
    let (segs, ctype, _) = serve(input, 1);
    assert_eq!(segs.len(), 2);
    assert_eq!(segs[0].as_slice(), b"HTTP/1.1 100 Continue\r\n\r\n".as_slice());
    assert!(segs[1].starts_with(b"HTTP/1.1 200 OK\r\n"));
    assert_eq!(ctype, ConnectionType::KeepAlive);
}

#[test]
fn conflicting_framing_gets_400_and_force_close() {
    let input = b"POST / HTTP/1.1\r\nHost: x\r\nContent-Length: 5\r\nTransfer-Encoding: chunked\r\n\r\n";
    let (segs, ctype, _) = serve(input, 1);
    assert_eq!(segs.len(), 1);
    assert!(segs[0].starts_with(b"HTTP/1.1 400 Bad Request\r\n"));
    assert_eq!(ctype, ConnectionType::CloseForce);
}

#[test]
fn bad_request_line_gets_400_and_force_close() {
    let input = b"NONSENSE\r\n\r\n";
    let (segs, ctype, _) = serve(input, 1);
    assert_eq!(segs.len(), 1);
    assert!(segs[0].starts_with(b"HTTP/1.1 400 Bad Request\r\n"));
    assert_eq!(ctype, ConnectionType::CloseForce);
}

#[test]
fn incomplete_head_serves_nothing() {
    let input = b"GET / HTTP/1.1\r\nHost";
    let (segs, ctype, used) = serve(input, 1);
    assert_eq!(segs.len(), 0);
    assert_eq!(ctype, ConnectionType::KeepAlive);
    assert_eq!(used, 0);
}

#[test]
fn chunked_request_body_is_consumed() {
    let input = b"POST /up HTTP/1.1\r\nHost: x\r\nTransfer-Encoding: chunked\r\n\r\n4\r\nWiki\r\n0\r\n\r\nGET /b HTTP/1.1\r\nHost: x\r\n\r\n";
    let (segs, ctype, used) = serve(input, 2);
    assert_eq!(segs.len(), 2);
    assert_eq!(ctype, ConnectionType::KeepAlive);
    assert_eq!(used, input.len());
}

#[test]
fn h1_step_walks_one_request() {
    let (s, a) = http_core::dispatch::h1_step(H1State::Idle, H1Event::Readable);
    assert_eq!((s, a), (H1State::Reading, H1Action::StartRead));
    let (s, a) = http_core::dispatch::h1_step(s, H1Event::HeadParsed(true));
    assert_eq!((s, a), (H1State::Dispatching, H1Action::WriteContinueThenCall));
    let (s, a) = http_core::dispatch::h1_step(s, H1Event::ResponseReady);
    assert_eq!((s, a), (H1State::Writing, H1Action::WriteResponse));
    let (s, a) = http_core::dispatch::h1_step(s, H1Event::WriteDone(ConnectionType::KeepAlive));
    assert_eq!((s, a), (H1State::Idle, H1Action::ResetThenIdle));
    let (s, a) = http_core::dispatch::h1_step(s, H1Event::Deadline);
    assert_eq!((s, a), (H1State::Closing, H1Action::GracefulClose));
}

#[test]
fn h1_step_upgrade_and_failure_paths() {
    let (s, a) = http_core::dispatch::h1_step(H1State::Writing, H1Event::WriteDone(ConnectionType::Upgrade));
    assert_eq!((s, a), (H1State::Upgraded, H1Action::HandOffUpgrade));
    let (s, a) = http_core::dispatch::h1_step(H1State::Reading, H1Event::ParseFailed);
    assert_eq!((s, a), (H1State::Closing, H1Action::WriteBadRequestThenForceClose));
    let (s, a) = http_core::dispatch::h1_step(H1State::Dispatching, H1Event::ServiceFailed(false));
    assert_eq!((s, a), (H1State::Writing, H1Action::WriteServerError));
    let (s, a) = http_core::dispatch::h1_step(H1State::Dispatching, H1Event::ServiceFailed(true));
    assert_eq!((s, a), (H1State::Closing, H1Action::ForceClose));
}
