//! Core of an HTTP service runtime: per-connection state for the HTTP/1
//! dispatcher, a vectored buffer list for writev batching, the HTTP/1 codec
//! decisions, the HTTP/2 dispatcher state machines, and the client-side
//! response collection rules.

pub mod basic_context;
pub mod buf;
pub mod client;
pub mod codec;
pub mod context;
pub mod date;
pub mod digits;
pub mod dispatch;
pub mod error;
pub mod expect;
pub mod h2;
pub mod h3;
pub mod header;
pub mod pool;
pub mod request;
pub mod timer;
pub mod types;

pub use buf::BufList;
pub use client::{BodyEvent, ClientResponse, CollectError, ConnKind, SendError, DEFAULT_PAYLOAD_LIMIT};
pub use codec::{TransferCoding, MAX_HEADERS};
pub use context::{ConnectionType, Context, ContextState};
pub use date::DateTimeHandle;
pub use dispatch::{H1Action, H1Event, H1Response, H1State};
pub use error::{BodyError, HandshakeError, HttpServiceError, OpCode, ProtoError, ProtocolError, RustlsError, TimeoutError, TlsError};
pub use expect::ExpectHandler;
pub use h2::{ConnectionState, H2Action, H2BodyEncoder, H2Dispatcher, H2Event, H2PingPong, PingPongAction};
pub use h3::H3Service;
pub use pool::{Authority, ConnectionPool, PoolEntry};
pub use header::HeaderMap;
pub use request::{ClientRequest, RequestBodyKind};
pub use timer::KeepAliveTimer;
pub use types::{BodySize, Method, RequestHead, ResponseHead, Version};
