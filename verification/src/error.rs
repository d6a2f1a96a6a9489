//! Error kinds of the runtime, one per observable cause, and the WebSocket
//! protocol and handshake errors with their human-readable descriptions.

use vstd::prelude::*;

verus! {

#[verifier::external_type_specification]
#[verifier::external_body]
pub struct ExIoError(std::io::Error);

/// Errors of the HTTP/1 protocol layer.
#[derive(Copy, Clone, PartialEq, Eq, Structural, Debug)]
pub enum ProtoError {
    /// The request line could not be parsed.
    InvalidRequestLine,
    /// A header line exceeded the configured size.
    HeaderTooLarge,
    /// More headers arrived than the configured limit.
    TooManyHeaders,
    /// A header line could not be parsed.
    InvalidHeader,
    /// Both `Content-Length` and `Transfer-Encoding`, or differing
    /// `Content-Length` values, were present.
    ConflictingFraming,
    /// A body exceeded its declared or configured size.
    BodyOverflow,
    /// A chunked body could not be decoded.
    ChunkedDecode,
}

/// Typed timeouts: each boundary operation has its own kind.
#[derive(Copy, Clone, PartialEq, Eq, Structural, Debug)]
pub enum TimeoutError {
    Resolve,
    TlsAccept,
    H2Handshake,
    Request,
    Response,
    KeepAlive,
}

/// Errors while collecting a message body.
#[derive(Copy, Clone, PartialEq, Eq, Structural, Debug)]
pub enum BodyError {
    /// The body grew beyond the payload limit.
    OverFlow,
    /// A chunk was not valid UTF-8 while collecting into a string.
    InvalidUtf8,
}

/// Errors a protocol service reports to its caller.
#[derive(Copy, Clone, PartialEq, Eq, Structural, Debug)]
pub enum HttpServiceError {
    /// The inner service or the TLS acceptor reported not ready.
    ServiceReady,
    /// A boundary operation timed out.
    Timeout(TimeoutError),
}

/// WebSocket frame opcodes.
#[derive(Copy, Clone, PartialEq, Eq, Structural, Debug)]
pub enum OpCode {
    Continue,
    Text,
    Binary,
    Close,
    Ping,
    Pong,
    Bad,
}

impl OpCode {
    /// The opcode's name.
    pub fn label(&self) -> (r: &'static str)
        ensures
            r@ == self.spec_label(),
    {
        match self {
            OpCode::Continue => "Continue",
            OpCode::Text => "Text",
            OpCode::Binary => "Binary",
            OpCode::Close => "Close",
            OpCode::Ping => "Ping",
            OpCode::Pong => "Pong",
            OpCode::Bad => "Bad",
        }
    }

    /// The opcode's name.
    pub open spec fn spec_label(&self) -> Seq<char> {
        match self {
            OpCode::Continue => "Continue"@,
            OpCode::Text => "Text"@,
            OpCode::Binary => "Binary"@,
            OpCode::Close => "Close"@,
            OpCode::Ping => "Ping"@,
            OpCode::Pong => "Pong"@,
            OpCode::Bad => "Bad"@,
        }
    }
}

/// WebSocket protocol errors.
#[derive(Debug)]
pub enum ProtocolError {
    UnmaskedFrame,
    MaskedFrame,
    InvalidOpcode(u8),
    InvalidLength(usize),
    BadOpCode,
    Overflow,
    ContinuationNotStarted,
    ContinuationStarted,
    ContinuationFragment(OpCode),
    Io(std::io::Error),
}

/// The decimal digit characters of `n`, most significant first.
pub open spec fn dec_chars(n: nat) -> Seq<char>
    decreases n,
{
    if n < 10 {
        seq![digit_char(n)]
    } else {
        dec_chars(n / 10).push(digit_char(n % 10))
    }
}

/// The character for one decimal digit.
pub open spec fn digit_char(d: nat) -> char {
    if d == 0 {
        '0'
    } else if d == 1 {
        '1'
    } else if d == 2 {
        '2'
    } else if d == 3 {
        '3'
    } else if d == 4 {
        '4'
    } else if d == 5 {
        '5'
    } else if d == 6 {
        '6'
    } else if d == 7 {
        '7'
    } else if d == 8 {
        '8'
    } else {
        '9'
    }
}

/// The digit character of `d`, for `d < 10`.
fn digit_str(d: u64) -> (r: &'static str)
    requires
        d < 10,
    ensures
        r@ == seq![digit_char(d as nat)],
{
    let r: &'static str = match d {
        0 => "0",
        1 => "1",
        2 => "2",
        3 => "3",
        4 => "4",
        5 => "5",
        6 => "6",
        7 => "7",
        8 => "8",
        _ => "9",
    };
    proof {
        reveal_strlit("0");
        reveal_strlit("1");
        reveal_strlit("2");
        reveal_strlit("3");
        reveal_strlit("4");
        reveal_strlit("5");
        reveal_strlit("6");
        reveal_strlit("7");
        reveal_strlit("8");
        reveal_strlit("9");
        assert(r@ =~= seq![digit_char(d as nat)]);
    }
    r
}

/// Format `n` in decimal as a string.
pub fn u64_to_dec_string(n: u64) -> (r: String)
    ensures
        r@ == dec_chars(n as nat),
    decreases n,
{
    if n < 10 {
        let r = digit_str(n).to_owned();
        proof {
            assert(r@ =~= dec_chars(n as nat));
        }
        r
    } else {
        let mut r = u64_to_dec_string(n / 10);
        r.append(digit_str(n % 10));
        proof {
            assert(r@ =~= dec_chars(n as nat));
        }
        r
    }
}

impl ProtocolError {
    /// The description of the error.
    pub open spec fn spec_message(&self) -> Seq<char> {
        match self {
            ProtocolError::UnmaskedFrame => "Received an unmasked frame from client."@,
            ProtocolError::MaskedFrame => "Received a masked frame from server."@,
            ProtocolError::InvalidOpcode(code) => " Encountered invalid OpCode: "@ + dec_chars(
                *code as nat,
            ),
            ProtocolError::InvalidLength(len) => "Invalid control frame length: "@ + dec_chars(
                *len as nat,
            ) + "."@,
            ProtocolError::BadOpCode => "Bad opcode."@,
            ProtocolError::Overflow => "A payload reached size limit."@,
            ProtocolError::ContinuationNotStarted => "Continuation is not started."@,
            ProtocolError::ContinuationStarted
                => "Received new continuation but it is already started."@,
            ProtocolError::ContinuationFragment(code) => "Unknown continuation fragment with OpCode: "@
                + code.spec_label() + "."@,
            ProtocolError::Io(_) => "Io error."@,
        }
    }

    /// Render the description. For an IO error the inner cause is not part
    /// of the text, since nothing can be stated about it.
    pub fn message(&self) -> (r: String)
        ensures
            r@ == self.spec_message(),
    {
        match self {
            ProtocolError::UnmaskedFrame => "Received an unmasked frame from client.".to_owned(),
            ProtocolError::MaskedFrame => "Received a masked frame from server.".to_owned(),
            ProtocolError::InvalidOpcode(code) => {
                let mut r = " Encountered invalid OpCode: ".to_owned();
                let d = u64_to_dec_string(*code as u64);
                r.append(d.as_str());
                r
            },
            ProtocolError::InvalidLength(len) => {
                let mut r = "Invalid control frame length: ".to_owned();
                let d = u64_to_dec_string(*len as u64);
                r.append(d.as_str());
                r.append(".");
                r
            },
            ProtocolError::BadOpCode => "Bad opcode.".to_owned(),
            ProtocolError::Overflow => "A payload reached size limit.".to_owned(),
            ProtocolError::ContinuationNotStarted => "Continuation is not started.".to_owned(),
            ProtocolError::ContinuationStarted => {
                "Received new continuation but it is already started.".to_owned()
            },
            ProtocolError::ContinuationFragment(code) => {
                let mut r = "Unknown continuation fragment with OpCode: ".to_owned();
                r.append(code.label());
                r.append(".");
                r
            },
            ProtocolError::Io(_) => "Io error.".to_owned(),
        }
    }
}

impl From<OpCode> for ProtocolError {
    /// An unknown continuation fragment carries the opcode that arrived.
    fn from(e: OpCode) -> (r: Self) {
        ProtocolError::ContinuationFragment(e)
    }
}

impl vstd::std_specs::convert::FromSpecImpl<OpCode> for ProtocolError {
    open spec fn obeys_from_spec() -> bool {
        true
    }

    open spec fn from_spec(e: OpCode) -> Self {
        ProtocolError::ContinuationFragment(e)
    }
}

impl From<std::io::Error> for ProtocolError {
    /// A transport failure is carried as is.
    fn from(e: std::io::Error) -> (r: Self) {
        ProtocolError::Io(e)
    }
}

impl vstd::std_specs::convert::FromSpecImpl<std::io::Error> for ProtocolError {
    open spec fn obeys_from_spec() -> bool {
        true
    }

    open spec fn from_spec(e: std::io::Error) -> Self {
        ProtocolError::Io(e)
    }
}

/// WebSocket handshake errors.
#[derive(Copy, Clone, PartialEq, Eq, Structural, Debug)]
pub enum HandshakeError {
    GetMethodRequired,
    NoWebsocketUpgrade,
    NoConnectionUpgrade,
    NoVersionHeader,
    UnsupportedVersion,
    BadWebsocketKey,
}

impl HandshakeError {
    /// The description of the error.
    pub open spec fn spec_message(&self) -> Seq<char> {
        match self {
            HandshakeError::GetMethodRequired => "Only get method is allowed."@,
            HandshakeError::NoWebsocketUpgrade => "Upgrade header is not set to websocket."@,
            HandshakeError::NoConnectionUpgrade => "Connection header is not set to upgrade."@,
            HandshakeError::NoVersionHeader => " WebSocket version header is not set."@,
            HandshakeError::UnsupportedVersion => "Unsupported WebSocket version."@,
            HandshakeError::BadWebsocketKey => "WebSocket key is not set or wrong."@,
        }
    }

    /// Render the description.
    pub fn message(&self) -> (r: String)
        ensures
            r@ == self.spec_message(),
    {
        match self {
            HandshakeError::GetMethodRequired => "Only get method is allowed.".to_owned(),
            HandshakeError::NoWebsocketUpgrade => {
                "Upgrade header is not set to websocket.".to_owned()
            },
            HandshakeError::NoConnectionUpgrade => {
                "Connection header is not set to upgrade.".to_owned()
            },
            HandshakeError::NoVersionHeader => " WebSocket version header is not set.".to_owned(),
            HandshakeError::UnsupportedVersion => "Unsupported WebSocket version.".to_owned(),
            HandshakeError::BadWebsocketKey => "WebSocket key is not set or wrong.".to_owned(),
        }
    }
}

/// The rustls acceptor's error: an IO failure.
#[derive(Debug)]
pub struct RustlsError(pub std::io::Error);

impl From<std::io::Error> for RustlsError {
    /// The failure is carried as is.
    fn from(e: std::io::Error) -> (r: Self) {
        RustlsError(e)
    }
}

impl vstd::std_specs::convert::FromSpecImpl<std::io::Error> for RustlsError {
    open spec fn obeys_from_spec() -> bool {
        true
    }

    open spec fn from_spec(e: std::io::Error) -> Self {
        RustlsError(e)
    }
}

/// Errors of the TLS layer.
#[derive(Debug)]
pub enum TlsError {
    Rustls(RustlsError),
}

impl From<RustlsError> for TlsError {
    /// A rustls failure is one kind of TLS failure.
    fn from(e: RustlsError) -> (r: Self) {
        TlsError::Rustls(e)
    }
}

impl vstd::std_specs::convert::FromSpecImpl<RustlsError> for TlsError {
    open spec fn obeys_from_spec() -> bool {
        true
    }

    open spec fn from_spec(e: RustlsError) -> Self {
        TlsError::Rustls(e)
    }
}

} // verus!
