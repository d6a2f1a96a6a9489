//! A reduced per-connection context for drivers that keep the request
//! method and a cached header map beside the connection type, with a
//! server-wide keep-alive switch.

use crate::context::ConnectionType;
use crate::header::HeaderMap;
use crate::types::Method;
use vstd::prelude::*;

verus! {

/// Per-connection state with a cached header map and the request method.
pub struct Context {
    pub flag: ContextFlag,
    pub ctype: ConnectionType,
    pub method: Method,
    pub header_cache: Option<HeaderMap>,
}

impl Context {
    /// The most headers a request may carry.
    pub const MAX_HEADERS: usize = 96;

    /// A fresh context: keep-alive disabled, closing by default, method
    /// GET, no cached header map.
    pub fn new() -> (r: Self)
        ensures
            !r.flag.spec_keep_alive_enable(),
            r.ctype == ConnectionType::Close,
            r.method == Method::Get,
            r.header_cache is None,
    {
        let flag = ContextFlag::new(false);
        Context { flag, ctype: ConnectionType::Close, method: Method::default(), header_cache: None }
    }
}

/// Server-wide switches of a connection.
pub struct ContextFlag {
    flag: u8,
}

impl ContextFlag {
    /// Set when the server keeps connections alive between requests.
    pub const ENABLE_KEEP_ALIVE: u8 = 0b0_01;

    /// Whether keep-alive is switched on.
    pub open spec fn spec_keep_alive_enable(&self) -> bool {
        self.spec_flag() & ContextFlag::ENABLE_KEEP_ALIVE == ContextFlag::ENABLE_KEEP_ALIVE
    }

    /// The raw switch bits.
    pub closed spec fn spec_flag(&self) -> u8 {
        self.flag
    }

    pub fn new(enable_ka: bool) -> (r: Self)
        ensures
            r.spec_keep_alive_enable() == enable_ka,
    {
        let flag: u8 = if enable_ka {
            Self::ENABLE_KEEP_ALIVE
        } else {
            0
        };
        proof {
            assert(1u8 & 1u8 == 1u8) by (bit_vector);
            assert(0u8 & 1u8 != 1u8) by (bit_vector);
        }
        ContextFlag { flag }
    }

    /// Whether keep-alive is switched on.
    pub fn keep_alive_enable(&self) -> (r: bool)
        ensures
            r == self.spec_keep_alive_enable(),
    {
        self.flag & Self::ENABLE_KEEP_ALIVE == Self::ENABLE_KEEP_ALIVE
    }
}

} // verus!
